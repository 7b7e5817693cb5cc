//! Fixed Label, cluster `0x0040`, and User Label, cluster `0x0041`: names for an endpoint.
//!
//! The manufacturer's cannot be written; the owner's can, and take as many as there is room for.
//! A label that is too long is refused and never cut.

use vstd::prelude::*;
use vstd::utf8;

use crate::bounded;
use crate::bounded::{List, Text};
use crate::clusters::dispatch::Cluster;
use crate::dm;
use crate::dm::{Access, AttributeDescriptor, AttributeQualities, ClusterDescriptor, ClusterModel, Privilege};
use crate::im;
use crate::im::{
    AttributeId, ClusterHandler, ClusterId, InteractionContext, InvokeAnswer, Lifecycle, ReadAnswer, Reply, Resolved,
    ResolvedCommand, Status, StatusIb, WriteOp,
};
use crate::tlv;
use crate::tlv::{ContainerKind, Element, Items, Tag, Value};

verus! {

/// Fixed Label.
pub const FIXED_LABEL_ID: ClusterId = 0x0040;

/// User Label.
pub const USER_LABEL_ID: ClusterId = 0x0041;

/// The revision of both.
pub const REVISION: u16 = 1;

/// `LabelList`.
pub const LABEL_LIST: AttributeId = 0x0000;

/// The most octets that either half of a label may have.
pub const LABEL_MAX: usize = 16;

/// A label, as a value.
pub struct LabelModel {
    /// What it is about.
    pub label: Seq<char>,
    /// What it says.
    pub value: Seq<char>,
}

/// Whether a text is short enough for a label.
pub open spec fn fits(s: Seq<char>) -> bool {
    utf8::encode_utf8(s).len() <= LABEL_MAX
}

/// A label.
#[derive(Debug, Clone, Copy)]
pub struct Label<'a> {
    /// What it is about.
    pub label: &'a str,
    /// What it says.
    pub value: &'a str,
}

impl<'a> View for Label<'a> {
    type V = LabelModel;

    open spec fn view(&self) -> LabelModel {
        LabelModel { label: self.label@, value: self.value@ }
    }
}

/// A label as an item of a list.
pub open spec fn label_bytes() -> spec_fn(LabelModel) -> Seq<u8> {
    |l: LabelModel|
        tlv::structure_bytes(
            Tag::Anonymous,
            tlv::text_bytes(Tag::Context(0), l.label) + tlv::text_bytes(Tag::Context(1), l.value),
        )
}

impl<'a> Default for Label<'a> {
    /// An empty label.
    fn default() -> (l: Self)
        ensures
            l@ == (LabelModel { label: Seq::empty(), value: Seq::empty() }),
    {
        proof {
            reveal_strlit("");
            assert(""@ =~= Seq::<char>::empty());
        }
        Label { label: "", value: "" }
    }
}

impl<'a> Label<'a> {
    /// A label, where both halves are short enough.
    pub fn new(label: &'a str, value: &'a str) -> (l: Option<Self>)
        ensures
            (l is Some) == (fits(label@) && fits(value@)),
            l matches Some(l) ==> l.label == label && l.value == value,
    {
        if bounded::octet_length(label) > LABEL_MAX || bounded::octet_length(value) > LABEL_MAX {
            return None;
        }
        Some(Label { label, value })
    }

    fn encode(&self, out: &mut Vec<u8>)
        ensures
            final(out)@ == old(out)@ + label_bytes()(self@),
    {
        let mut body: Vec<u8> = Vec::new();
        tlv::put_text(&mut body, Tag::Context(0), self.label);
        tlv::put_text(&mut body, Tag::Context(1), self.value);
        proof {
            assert(body@ =~= tlv::text_bytes(Tag::Context(0), self.label@) + tlv::text_bytes(
                Tag::Context(1),
                self.value@,
            ));
        }
        tlv::put_structure(out, Tag::Anonymous, &body);
    }
}

/// A label of its own.
pub struct OwnedLabel {
    label: Text<LABEL_MAX>,
    value: Text<LABEL_MAX>,
}

impl View for OwnedLabel {
    type V = LabelModel;

    closed spec fn view(&self) -> LabelModel {
        LabelModel { label: self.label@, value: self.value@ }
    }
}

impl Default for OwnedLabel {
    /// An empty label.
    fn default() -> (l: Self)
        ensures
            l@ == (LabelModel { label: Seq::empty(), value: Seq::empty() }),
    {
        OwnedLabel { label: Text::new(), value: Text::new() }
    }
}

impl OwnedLabel {
    /// What it is about.
    pub fn label(&self) -> (s: &str)
        ensures
            s@ == self@.label,
    {
        self.label.as_str()
    }

    /// What it says.
    pub fn value(&self) -> (s: &str)
        ensures
            s@ == self@.value,
    {
        self.value.as_str()
    }

    /// The label.
    pub fn as_label(&self) -> (l: Label<'_>)
        ensures
            l@ == self@,
    {
        Label { label: self.label.as_str(), value: self.value.as_str() }
    }

    /// A label of its own, where both halves are short enough.
    pub fn new(label: &str, value: &str) -> (r: Result<Self, Status>)
        ensures
            match r {
                Ok(l) => fits(label@) && fits(value@) && l@ == (LabelModel { label: label@, value: value@ }),
                Err(status) => !(fits(label@) && fits(value@)) && status == Status::ConstraintError,
            },
    {
        match (Text::copy_of(label), Text::copy_of(value)) {
            (Some(label), Some(value)) => Ok(OwnedLabel { label, value }),
            _ => Err(Status::ConstraintError),
        }
    }

    /// Another label that says the same.
    pub fn copy(&self) -> (l: Self)
        ensures
            l@ == self@,
    {
        match (Text::copy_of(self.label.as_str()), Text::copy_of(self.value.as_str())) {
            (Some(label), Some(value)) => OwnedLabel { label, value },
            _ => OwnedLabel { label: Text::new(), value: Text::new() },
        }
    }
}

/// The text of the last of the first `n` elements that has a tag; none where no element has it.
pub open spec fn half(b: Seq<u8>, items: Seq<Element>, n: int, tag: u8) -> Seq<char>
    decreases n,
{
    if n <= 0 {
        Seq::empty()
    } else if items[n - 1].context == Some(tag) {
        tlv::text_in(b, items[n - 1])
    } else {
        half(b, items, n - 1, tag)
    }
}

/// Whether one of the two halves holds something else than a text, among the first `n` elements.
pub open spec fn not_text(items: Seq<Element>, n: int) -> bool
    decreases n,
{
    n > 0 && (not_text(items, n - 1) || ((items[n - 1].context == Some(0u8) || items[n - 1].context == Some(1u8)) && !(
    items[n - 1].value is Utf8)))
}

proof fn lemma_not_text(items: Seq<Element>, i: int, n: int)
    requires
        i <= n,
        not_text(items, i),
    ensures
        not_text(items, n),
    decreases n - i,
{
    if i < n {
        lemma_not_text(items, i, n - 1);
    }
}

/// The label whose content starts at `pos`, or what is wrong with it. A half that is not there is
/// empty.
pub open spec fn label_at(b: Seq<u8>, pos: int) -> Result<LabelModel, Status> {
    let s = tlv::scan(b, pos);
    let n = s.items.len() as int;
    let label = half(b, s.items, n, 0);
    let value = half(b, s.items, n, 1);
    if not_text(s.items, n) || !s.complete {
        Err(Status::InvalidAction)
    } else if !(fits(label) && fits(value)) {
        Err(Status::ConstraintError)
    } else {
        Ok(LabelModel { label, value })
    }
}

/// A label, as a value, or why there is none.
pub open spec fn read_label(r: Result<OwnedLabel, Status>) -> Result<LabelModel, Status> {
    match r {
        Ok(l) => Ok(l@),
        Err(status) => Err(status),
    }
}

fn decode_label(data: &[u8], start: usize) -> (r: Result<OwnedLabel, Status>)
    requires
        start <= data@.len(),
    ensures
        read_label(r) == label_at(data@, start as int),
{
    let read: Items = tlv::read_items(data, start);
    let ghost items = read.items@;
    let mut label: &str = "";
    let mut value: &str = "";
    let mut i: usize = 0;
    proof {
        reveal_strlit("");
        assert(""@ =~= Seq::<char>::empty());
    }
    while i < read.items.len()
        invariant
            i <= read.items@.len(),
            items == read.items@,
            items == tlv::scan(data@, start as int).items,
            forall|i: int| 0 <= i < read.items@.len() ==> tlv::inside(data@, #[trigger] read.items@[i]),
            !not_text(items, i as int),
            label@ == half(data@, items, i as int, 0),
            value@ == half(data@, items, i as int, 1),
        decreases read.items.len() - i,
    {
        let e: Element = read.items[i];
        proof {
            assert(tlv::inside(data@, items[i as int]));
            if not_text(items, i + 1) {
                lemma_not_text(items, i + 1, items.len() as int);
            }
        }
        match e.context {
            Some(0) => match tlv::text_at(data, &e) {
                Some(s) => {
                    label = s;
                },
                None => return Err(Status::InvalidAction),
            },
            Some(1) => match tlv::text_at(data, &e) {
                Some(s) => {
                    value = s;
                },
                None => return Err(Status::InvalidAction),
            },
            _ => {},
        }
        i = i + 1;
    }
    if !read.complete {
        return Err(Status::InvalidAction);
    }
    OwnedLabel::new(label, value)
}

/// The labels that the first `n` items of a list are, at most `cap`.
pub open spec fn labels_after(b: Seq<u8>, items: Seq<Element>, n: int, cap: nat) -> Result<Seq<LabelModel>, Status>
    decreases n,
{
    if n <= 0 {
        Ok(Seq::empty())
    } else {
        match labels_after(b, items, n - 1, cap) {
            Err(status) => Err(status),
            Ok(before) => if !items[n - 1].is_structure() {
                Err(Status::InvalidAction)
            } else {
                match label_at(b, items[n - 1].content()) {
                    Err(status) => Err(status),
                    Ok(l) => if before.len() >= cap {
                        Err(Status::ResourceExhausted)
                    } else {
                        Ok(before.push(l))
                    },
                }
            },
        }
    }
}

proof fn lemma_labels_err(b: Seq<u8>, items: Seq<Element>, i: int, n: int, cap: nat)
    requires
        i <= n,
        labels_after(b, items, i, cap) is Err,
    ensures
        labels_after(b, items, n, cap) == labels_after(b, items, i, cap),
    decreases n - i,
{
    if i < n {
        lemma_labels_err(b, items, i, n - 1, cap);
    }
}

/// The labels of a list whose content starts at `pos`, or what is wrong with it.
pub open spec fn labels_at(b: Seq<u8>, pos: int, cap: nat) -> Result<Seq<LabelModel>, Status> {
    let s = tlv::scan(b, pos);
    match labels_after(b, s.items, s.items.len() as int, cap) {
        Err(status) => Err(status),
        Ok(labels) => if s.complete {
            Ok(labels)
        } else {
            Err(Status::InvalidAction)
        },
    }
}

fn decode_labels<const N: usize>(data: &[u8], start: usize) -> (r: Result<List<OwnedLabel, N>, Status>)
    requires
        start <= data@.len(),
    ensures
        match r {
            Ok(list) => labels_at(data@, start as int, N as nat) == Ok::<Seq<LabelModel>, Status>(list.models()),
            Err(status) => labels_at(data@, start as int, N as nat) == Err::<Seq<LabelModel>, Status>(status),
        },
{
    let read: Items = tlv::read_items(data, start);
    let ghost items = read.items@;
    let ghost n = items.len() as int;
    let mut list: List<OwnedLabel, N> = List::new();
    let mut i: usize = 0;
    proof {
        assert(list.models() =~= Seq::<LabelModel>::empty());
    }
    while i < read.items.len()
        invariant
            i <= read.items@.len(),
            items == read.items@,
            n == items.len(),
            items == tlv::scan(data@, start as int).items,
            forall|i: int| 0 <= i < read.items@.len() ==> tlv::inside(data@, #[trigger] read.items@[i]),
            labels_after(data@, items, i as int, N as nat) == Ok::<Seq<LabelModel>, Status>(list.models()),
        decreases read.items.len() - i,
    {
        proof {
            assert(tlv::inside(data@, items[i as int]));
            if labels_after(data@, items, i + 1, N as nat) is Err {
                lemma_labels_err(data@, items, i + 1, n, N as nat);
            }
        }
        let at: usize = match read.items[i].value {
            Value::Container(ContainerKind::Structure, at) => at,
            _ => return Err(Status::InvalidAction),
        };
        match decode_label(data, at) {
            Err(status) => return Err(status),
            Ok(l) => {
                if !list.add(l) {
                    return Err(Status::ResourceExhausted);
                }
            },
        }
        i = i + 1;
    }
    if read.complete {
        Ok(list)
    } else {
        Err(Status::InvalidAction)
    }
}

/// How Fixed Label describes itself.
pub open spec fn fixed_description() -> ClusterModel {
    ClusterModel {
        id: FIXED_LABEL_ID,
        revision: REVISION,
        feature_map: 0,
        attributes: seq![dm::readable(LABEL_LIST, dm::kept_value())],
        accepted_commands: Seq::empty(),
        generated_commands: Seq::empty(),
        events: Seq::empty(),
    }
}

/// How Fixed Label describes itself.
pub fn fixed_cluster() -> (d: ClusterDescriptor)
    ensures
        d@ == fixed_description(),
{
    let d: ClusterDescriptor = ClusterDescriptor {
        id: FIXED_LABEL_ID,
        revision: REVISION,
        feature_map: 0,
        attributes: vec![AttributeDescriptor::read_only(LABEL_LIST).with_qualities(AttributeQualities::non_volatile())],
        accepted_commands: Vec::new(),
        generated_commands: Vec::new(),
        events: Vec::new(),
    };
    proof {
        assert(d@.attributes =~= fixed_description().attributes);
    }
    d
}

/// How User Label describes itself.
pub open spec fn user_description() -> ClusterModel {
    ClusterModel {
        id: USER_LABEL_ID,
        revision: REVISION,
        feature_map: 0,
        attributes: seq![dm::writable(LABEL_LIST, Privilege::Manage, dm::kept_value())],
        accepted_commands: Seq::empty(),
        generated_commands: Seq::empty(),
        events: Seq::empty(),
    }
}

/// How User Label describes itself.
pub fn user_cluster() -> (d: ClusterDescriptor)
    ensures
        d@ == user_description(),
{
    let d: ClusterDescriptor = ClusterDescriptor {
        id: USER_LABEL_ID,
        revision: REVISION,
        feature_map: 0,
        attributes: vec![
            AttributeDescriptor::read_write(LABEL_LIST).with_access(
                Access::read_write_with(Privilege::View, Privilege::Manage),
            ).with_qualities(AttributeQualities::non_volatile()),
        ],
        accepted_commands: Vec::new(),
        generated_commands: Vec::new(),
        events: Vec::new(),
    };
    proof {
        assert(d@.attributes =~= user_description().attributes);
    }
    d
}

/// A list of labels.
pub open spec fn list_bytes(tag: Tag, labels: Seq<LabelModel>) -> Seq<u8> {
    tlv::array_bytes(tag, tlv::concat(labels, label_bytes()))
}

/// Fixed Label: what the manufacturer says.
#[derive(Debug, Clone, Copy)]
pub struct FixedLabel<'a> {
    /// The labels.
    pub labels: &'a [Label<'a>],
}

impl<'a> FixedLabel<'a> {
    /// A cluster of labels.
    pub fn new(labels: &'a [Label<'a>]) -> (c: Self)
        ensures
            c.labels == labels,
    {
        FixedLabel { labels }
    }

    /// The labels.
    pub fn labels(&self) -> (labels: &'a [Label<'a>])
        ensures
            labels == self.labels,
    {
        self.labels
    }
}

impl<'a> Cluster for FixedLabel<'a> {
    const ID: ClusterId = FIXED_LABEL_ID;
}

impl<'a> ClusterHandler for FixedLabel<'a> {
    open spec fn answers(&self, resolved: Resolved, ctx: InteractionContext, tag: Tag, a: ReadAnswer) -> bool {
        a == if resolved.attribute == LABEL_LIST {
            Ok(list_bytes(tag, bounded::models(self.labels@)))
        } else {
            Err::<Seq<u8>, Status>(Status::UnsupportedAttribute)
        }
    }

    open spec fn writes(
        before: &Self,
        after: &Self,
        resolved: Resolved,
        data: Seq<u8>,
        op: WriteOp,
        ctx: InteractionContext,
        r: Result<(), Status>,
    ) -> bool {
        *after == *before && r == Err::<(), Status>(Status::UnsupportedWrite)
    }

    open spec fn invokes(
        before: &Self,
        after: &Self,
        resolved: ResolvedCommand,
        fields: Option<Seq<u8>>,
        ctx: InteractionContext,
        tag: Tag,
        a: InvokeAnswer,
    ) -> bool {
        *after == *before && a == im::refused(Status::UnsupportedCommand)
    }

    open spec fn outlives(before: &Self, after: &Self, event: Lifecycle) -> bool {
        *after == *before
    }

    open spec fn unfit(&self, resolved: ResolvedCommand) -> Status {
        Status::Failure
    }

    fn answer(&self, resolved: &Resolved, ctx: &InteractionContext, tag: Tag) -> (a: Result<Vec<u8>, Status>) {
        if resolved.attribute != LABEL_LIST {
            return Err(Status::UnsupportedAttribute);
        }
        let ghost models = bounded::models(self.labels@);
        let mut body: Vec<u8> = Vec::new();
        let mut i: usize = 0;
        proof {
            assert(models.take(0) =~= Seq::<LabelModel>::empty());
            assert(body@ =~= tlv::concat(models.take(0), label_bytes()));
        }
        while i < self.labels.len()
            invariant
                i <= self.labels@.len() == models.len(),
                models == bounded::models(self.labels@),
                body@ == tlv::concat(models.take(i as int), label_bytes()),
            decreases self.labels.len() - i,
        {
            proof {
                assert(models[i as int] == self.labels@[i as int]@);
                tlv::lemma_concat_take(models, i as int, label_bytes());
            }
            self.labels[i].encode(&mut body);
            i = i + 1;
        }
        let mut out: Vec<u8> = Vec::new();
        tlv::put_array(&mut out, tag, &body);
        proof {
            assert(models.take(i as int) =~= models);
            assert(out@ =~= list_bytes(tag, models));
        }
        Ok(out)
    }

    fn write(&mut self, resolved: &Resolved, data: &[u8], op: WriteOp, ctx: &InteractionContext) -> (r: Result<(), Status>) {
        Err(Status::UnsupportedWrite)
    }

    fn perform(
        &mut self,
        resolved: &ResolvedCommand,
        fields: Option<&[u8]>,
        ctx: &InteractionContext,
        tag: Tag,
    ) -> (a: Result<Reply, StatusIb>) {
        im::refuse(Status::UnsupportedCommand)
    }

    fn on_lifecycle(&mut self, event: Lifecycle) {
    }

    fn unfit_status(&self, resolved: &ResolvedCommand) -> (s: Status) {
        Status::Failure
    }
}

/// What went wrong, where something did.
pub open spec fn refusal(r: Result<(), Status>) -> Option<Status> {
    match r {
        Ok(_) => None,
        Err(status) => Some(status),
    }
}

/// What writing the list comes to: all of it, or one more label.
pub open spec fn written(labels: Seq<LabelModel>, b: Seq<u8>, op: WriteOp, cap: nat) -> (Seq<LabelModel>, Option<Status>) {
    match tlv::element_at(b, 0) {
        None => (labels, Some(Status::InvalidAction)),
        Some((e, _)) => match op {
            WriteOp::Replace => if !e.is_array() {
                (labels, Some(Status::InvalidAction))
            } else {
                match labels_at(b, e.content(), cap) {
                    Err(status) => (labels, Some(status)),
                    Ok(new) => (new, None),
                }
            },
            WriteOp::Append => if !e.is_structure() {
                (labels, Some(Status::InvalidAction))
            } else {
                match label_at(b, e.content()) {
                    Err(status) => (labels, Some(status)),
                    Ok(l) => if labels.len() >= cap {
                        (labels, Some(Status::ResourceExhausted))
                    } else {
                        (labels.push(l), None)
                    },
                }
            },
        },
    }
}

/// User Label: what the owner says, in at most `N` labels.
pub struct UserLabel<const N: usize> {
    /// The labels.
    pub labels: List<OwnedLabel, N>,
}

impl<const N: usize> Default for UserLabel<N> {
    fn default() -> (c: Self)
        ensures
            c.labels.models() == Seq::<LabelModel>::empty(),
    {
        UserLabel::new()
    }
}

impl<const N: usize> UserLabel<N> {
    /// A cluster without labels.
    pub fn new() -> (c: Self)
        ensures
            c.labels.models() == Seq::<LabelModel>::empty(),
    {
        let labels: List<OwnedLabel, N> = List::new();
        proof {
            assert(labels.models() =~= Seq::<LabelModel>::empty());
        }
        UserLabel { labels }
    }

    /// The labels.
    pub fn labels(&self) -> (labels: &[OwnedLabel])
        ensures
            bounded::models(labels@) == self.labels.models(),
    {
        self.labels.as_slice()
    }

    /// Takes the labels that were kept, as many as there is room for.
    pub fn restore(&mut self, labels: &[OwnedLabel]) -> (r: Result<(), Status>)
        ensures
            final(self).labels.models() == bounded::leading(bounded::models(labels@), N as nat),
            refusal(r) == (if labels@.len() > N { Some(Status::ResourceExhausted) } else { None::<Status> }),
    {
        let ghost models = bounded::models(labels@);
        self.labels.empty();
        let mut i: usize = 0;
        proof {
            assert(models.take(0) =~= Seq::<LabelModel>::empty());
        }
        while i < labels.len()
            invariant
                i <= labels@.len() == models.len(),
                i <= N,
                models == bounded::models(labels@),
                self.labels.models() == models.take(i as int),
            decreases labels.len() - i,
        {
            proof {
                assert(models[i as int] == labels@[i as int]@);
                assert(models.take(i + 1) =~= models.take(i as int).push(models[i as int]));
            }
            if !self.labels.add(labels[i].copy()) {
                proof {
                    assert(models.take(i as int) =~= bounded::leading(models, N as nat));
                }
                return Err(Status::ResourceExhausted);
            }
            i = i + 1;
        }
        proof {
            assert(models.take(i as int) =~= models);
        }
        Ok(())
    }
}

impl<const N: usize> Cluster for UserLabel<N> {
    const ID: ClusterId = USER_LABEL_ID;
}

impl<const N: usize> ClusterHandler for UserLabel<N> {
    open spec fn answers(&self, resolved: Resolved, ctx: InteractionContext, tag: Tag, a: ReadAnswer) -> bool {
        a == if resolved.attribute == LABEL_LIST {
            Ok(list_bytes(tag, self.labels.models()))
        } else {
            Err::<Seq<u8>, Status>(Status::UnsupportedAttribute)
        }
    }

    open spec fn writes(
        before: &Self,
        after: &Self,
        resolved: Resolved,
        data: Seq<u8>,
        op: WriteOp,
        ctx: InteractionContext,
        r: Result<(), Status>,
    ) -> bool {
        (after.labels.models(), refusal(r)) == if resolved.attribute != LABEL_LIST {
            (before.labels.models(), Some(Status::UnsupportedWrite))
        } else {
            written(before.labels.models(), data, op, N as nat)
        }
    }

    open spec fn invokes(
        before: &Self,
        after: &Self,
        resolved: ResolvedCommand,
        fields: Option<Seq<u8>>,
        ctx: InteractionContext,
        tag: Tag,
        a: InvokeAnswer,
    ) -> bool {
        *after == *before && a == im::refused(Status::UnsupportedCommand)
    }

    open spec fn outlives(before: &Self, after: &Self, event: Lifecycle) -> bool {
        *after == *before
    }

    open spec fn unfit(&self, resolved: ResolvedCommand) -> Status {
        Status::Failure
    }

    fn answer(&self, resolved: &Resolved, ctx: &InteractionContext, tag: Tag) -> (a: Result<Vec<u8>, Status>) {
        if resolved.attribute != LABEL_LIST {
            return Err(Status::UnsupportedAttribute);
        }
        let items: &[OwnedLabel] = self.labels.as_slice();
        let ghost models = self.labels.models();
        let mut body: Vec<u8> = Vec::new();
        let mut i: usize = 0;
        proof {
            assert(models.take(0) =~= Seq::<LabelModel>::empty());
            assert(body@ =~= tlv::concat(models.take(0), label_bytes()));
        }
        while i < items.len()
            invariant
                i <= items@.len() == models.len(),
                models == bounded::models(items@),
                body@ == tlv::concat(models.take(i as int), label_bytes()),
            decreases items.len() - i,
        {
            proof {
                assert(models[i as int] == items@[i as int]@);
                tlv::lemma_concat_take(models, i as int, label_bytes());
            }
            items[i].as_label().encode(&mut body);
            i = i + 1;
        }
        let mut out: Vec<u8> = Vec::new();
        tlv::put_array(&mut out, tag, &body);
        proof {
            assert(models.take(i as int) =~= models);
            assert(out@ =~= list_bytes(tag, models));
        }
        Ok(out)
    }

    fn write(&mut self, resolved: &Resolved, data: &[u8], op: WriteOp, ctx: &InteractionContext) -> (r: Result<(), Status>) {
        if resolved.attribute != LABEL_LIST {
            return Err(Status::UnsupportedWrite);
        }
        let e: Element = match tlv::read_element(data, 0) {
            None => return Err(Status::InvalidAction),
            Some((e, _)) => e,
        };
        match op {
            WriteOp::Replace => {
                let start: usize = match e.value {
                    Value::Container(ContainerKind::Array, start) => start,
                    _ => return Err(Status::InvalidAction),
                };
                match decode_labels::<N>(data, start) {
                    Err(status) => Err(status),
                    Ok(new) => {
                        self.labels = new;
                        Ok(())
                    },
                }
            },
            WriteOp::Append => {
                let start: usize = match e.value {
                    Value::Container(ContainerKind::Structure, start) => start,
                    _ => return Err(Status::InvalidAction),
                };
                match decode_label(data, start) {
                    Err(status) => Err(status),
                    Ok(l) => if self.labels.add(l) {
                        Ok(())
                    } else {
                        Err(Status::ResourceExhausted)
                    },
                }
            },
        }
    }

    fn perform(
        &mut self,
        resolved: &ResolvedCommand,
        fields: Option<&[u8]>,
        ctx: &InteractionContext,
        tag: Tag,
    ) -> (a: Result<Reply, StatusIb>) {
        im::refuse(Status::UnsupportedCommand)
    }

    fn on_lifecycle(&mut self, event: Lifecycle) {
    }

    fn unfit_status(&self, resolved: &ResolvedCommand) -> (s: Status) {
        Status::Failure
    }
}

/// What was written is short enough, both halves of every label, and fits the list.
pub proof fn law_what_was_written_fits(labels: Seq<LabelModel>, b: Seq<u8>, op: WriteOp, cap: nat)
    requires
        labels.len() <= cap,
        forall|i: int| 0 <= i < labels.len() ==> fits((#[trigger] labels[i]).label) && fits(labels[i].value),
    ensures
        ({
            let after = written(labels, b, op, cap).0;
            &&& after.len() <= cap
            &&& forall|i: int| 0 <= i < after.len() ==> fits((#[trigger] after[i]).label) && fits(after[i].value)
        }),
{
    if let Some((e, _)) = tlv::element_at(b, 0) {
        let s = tlv::scan(b, e.content());
        lemma_labels_fit(b, s.items, s.items.len() as int, cap);
    }
}

proof fn lemma_labels_fit(b: Seq<u8>, items: Seq<Element>, n: int, cap: nat)
    ensures
        labels_after(b, items, n, cap) matches Ok(labels) ==> labels.len() <= cap && forall|i: int|
            0 <= i < labels.len() ==> fits((#[trigger] labels[i]).label) && fits(labels[i].value),
    decreases n,
{
    if n > 0 {
        lemma_labels_fit(b, items, n - 1, cap);
    }
}

/// A write that is refused changes nothing.
pub proof fn law_a_refused_write_changes_nothing(labels: Seq<LabelModel>, b: Seq<u8>, op: WriteOp, cap: nat)
    ensures
        written(labels, b, op, cap).1 is Some ==> written(labels, b, op, cap).0 == labels,
{
}

/// The two clusters differ in their id and in whether the list can be written, and in nothing else.
pub proof fn law_only_the_owner_writes()
    ensures
        ({
            let f = fixed_description();
            let u = user_description();
            &&& f.attributes[0].access.write is None
            &&& u.attributes[0].access.write == Some(Privilege::Manage)
            &&& f.attributes[0].access.read == u.attributes[0].access.read
            &&& f.attributes[0].qualities == u.attributes[0].qualities
            &&& f.revision == u.revision
        }),
{
}

/// A label that a read gave is the same label where it is written: wherever it stands in data that
/// memory can hold, where both halves are short enough.
pub proof fn law_a_label_round_trip(b: Seq<u8>, pos: int, l: LabelModel)
    requires
        tlv::stands(b, pos, label_bytes()(l)),
        b.len() <= usize::MAX,
        fits(l.label),
        fits(l.value),
    ensures
        ({
            let e = Element { context: None, value: Value::Container(ContainerKind::Structure, (pos + 1) as usize) };
            &&& tlv::element_at(b, pos) == Some((e, pos + 1))
            &&& e.content() == pos + 1
            &&& label_at(b, pos + 1) == Ok::<LabelModel, Status>(l)
            &&& tlv::behind(b, e, pos + 1) == Some(pos + label_bytes()(l).len())
            &&& tlv::balanced(b, pos, label_bytes()(l))
        }),
{
    let x = tlv::text_bytes(Tag::Context(0), l.label);
    let y = tlv::text_bytes(Tag::Context(1), l.value);
    let end = seq![0x18u8];
    let at = pos + 1;
    assert(label_bytes()(l) =~= tlv::header(Tag::Anonymous, 0x15) + (x + y + end));
    tlv::lemma_stands_both(b, pos, tlv::header(Tag::Anonymous, 0x15), x + y + end);
    tlv::lemma_stands_both(b, at, x + y, end);
    tlv::lemma_stands_both(b, at, x, y);
    tlv::law_text_round_trip(b, at, Tag::Context(0), l.label);
    tlv::law_text_round_trip(b, at + x.len(), Tag::Context(1), l.value);
    let (first, _) = tlv::element_at(b, at)->Some_0;
    let (second, _) = tlv::element_at(b, at + x.len())->Some_0;
    tlv::lemma_scan_step(b, at, first, at + x.len(), at + x.len());
    tlv::lemma_scan_step(b, at + x.len(), second, at + (x + y).len(), at + (x + y).len());
    tlv::lemma_scan_end(b, at + (x + y).len());
    tlv::lemma_balanced_plain(b, at, x, first);
    tlv::lemma_balanced_plain(b, at + x.len(), y, second);
    tlv::lemma_balanced_both(b, at, x, y);
    tlv::law_container_round_trip(b, pos, Tag::Anonymous, ContainerKind::Structure, x + y);
    let items = tlv::scan(b, at).items;
    assert(items =~= seq![first, second]);
    reveal_with_fuel(half, 3);
    reveal_with_fuel(not_text, 3);
}

proof fn lemma_labels_back(b: Seq<u8>, pos: int, labels: Seq<LabelModel>, items: Seq<Element>, n: int, cap: nat)
    requires
        tlv::stands(b, pos, tlv::concat(labels.take(n), label_bytes())),
        b.len() <= usize::MAX,
        forall|i: int| 0 <= i < labels.len() ==> fits((#[trigger] labels[i]).label) && fits(labels[i].value),
        0 <= n <= labels.len() <= cap,
        n <= items.len(),
        items.take(n) == tlv::concat_elements(b, pos, labels.take(n), label_bytes()),
    ensures
        labels_after(b, items, n, cap) == Ok::<Seq<LabelModel>, Status>(labels.take(n)),
    decreases n,
{
    if n > 0 {
        let before = labels.take(n - 1);
        let l = labels[n - 1];
        assert(labels.take(n) =~= before.push(l));
        assert(before.push(l).drop_last() =~= before);
        let x = tlv::concat(before, label_bytes());
        tlv::lemma_concat_push(before, l, label_bytes());
        tlv::lemma_stands_both(b, pos, x, label_bytes()(l));
        law_a_label_round_trip(b, pos + x.len(), l);
        let (e, _) = tlv::element_at(b, pos + x.len())->Some_0;
        let found = tlv::concat_elements(b, pos, before, label_bytes());
        assert(items.take(n) == found.push(e));
        assert(items.take(n - 1) =~= found.push(e).drop_last());
        assert(found.push(e).drop_last() =~= found);
        assert(items[n - 1] == items.take(n)[n - 1]);
        lemma_labels_back(b, pos, labels, items, n - 1, cap);
    } else {
        assert(labels.take(0) =~= Seq::<LabelModel>::empty());
    }
}

/// Writing back the list that was read changes nothing, where every label is short enough and the
/// list is one that memory can hold.
pub proof fn law_writing_back_what_was_read(tag: Tag, labels: Seq<LabelModel>, cap: nat)
    requires
        forall|i: int| 0 <= i < labels.len() ==> fits((#[trigger] labels[i]).label) && fits(labels[i].value),
        labels.len() <= cap,
        list_bytes(tag, labels).len() <= usize::MAX,
    ensures
        written(labels, list_bytes(tag, labels), WriteOp::Replace, cap) == (labels, None::<Status>),
{
    let b = list_bytes(tag, labels);
    assert(b.subrange(0, b.len() as int) =~= b);
    assert forall|i: int, p: int| 0 <= i < labels.len() && #[trigger] tlv::stands(b, p, label_bytes()(labels[i])) implies tlv::whole(
        b,
        p,
        label_bytes()(labels[i]),
    ) by {
        law_a_label_round_trip(b, p, labels[i]);
    }
    tlv::lemma_array_of_items(b, 0, tag, labels, label_bytes());
    let at = tlv::header(tag, 0x15).len() as int;
    let items = tlv::concat_elements(b, at, labels, label_bytes());
    tlv::lemma_concat_elements_len(b, at, labels, label_bytes());
    assert(labels.take(labels.len() as int) =~= labels);
    assert(items.take(items.len() as int) =~= items);
    lemma_labels_back(b, at, labels, items, labels.len() as int, cap);
}

/// What was written is what is read: the labels that the data held, in their order.
pub proof fn law_a_write_is_read_back<const N: usize>(
    before: &UserLabel<N>,
    after: &UserLabel<N>,
    resolved: Resolved,
    data: Seq<u8>,
    ctx: InteractionContext,
    tag: Tag,
    a: ReadAnswer,
)
    requires
        resolved.attribute == LABEL_LIST,
        UserLabel::<N>::writes(before, after, resolved, data, WriteOp::Replace, ctx, Ok(())),
        after.answers(resolved, ctx, tag, a),
    ensures
        tlv::element_at(data, 0) matches Some((e, _)) && (labels_at(data, e.content(), N as nat) matches Ok(new) && a == Ok::<
            Seq<u8>,
            Status,
        >(list_bytes(tag, new))),
{
}

proof fn lemma_half(b: Seq<u8>, items: Seq<Element>, n: int, tag: u8)
    requires
        0 <= n <= items.len(),
    ensures
        forall|i: int|
            0 <= i < n && (#[trigger] items[i]).context == Some(tag) && (forall|j: int|
                i < j < n ==> (#[trigger] items[j]).context != Some(tag)) ==> half(b, items, n, tag) == tlv::text_in(b, items[i]),
        (forall|j: int| 0 <= j < n ==> (#[trigger] items[j]).context != Some(tag)) ==> half(b, items, n, tag) == Seq::<char>::empty(),
    decreases n,
{
    if n > 0 {
        lemma_half(b, items, n - 1, tag);
    }
}

proof fn lemma_all_text(items: Seq<Element>, n: int)
    requires
        0 <= n <= items.len(),
    ensures
        not_text(items, n) == exists|i: int|
            0 <= i < n && ((#[trigger] items[i]).context == Some(0u8) || items[i].context == Some(1u8)) && !(items[i].value is Utf8),
    decreases n,
{
    if n > 0 {
        lemma_all_text(items, n - 1);
    }
}

/// What a label is read from: its name under the first tag and its value under the second, each a text of at most 16 octets, the
/// last one where there are more and nothing where there is none.
pub proof fn law_a_label_is_read(b: Seq<u8>, pos: int, i: int, k: int)
    requires
        0 <= i < tlv::scan(b, pos).items.len(),
        0 <= k < tlv::scan(b, pos).items.len(),
        tlv::scan(b, pos).items[i].context == Some(0u8),
        tlv::scan(b, pos).items[k].context == Some(1u8),
        forall|j: int| i < j < tlv::scan(b, pos).items.len() ==> (#[trigger] tlv::scan(b, pos).items[j]).context != Some(0u8),
        forall|j: int| k < j < tlv::scan(b, pos).items.len() ==> (#[trigger] tlv::scan(b, pos).items[j]).context != Some(1u8),
    ensures
        ({
            let s = tlv::scan(b, pos);
            let label = tlv::text_in(b, s.items[i]);
            let value = tlv::text_in(b, s.items[k]);
            let odd = exists|j: int|
                0 <= j < s.items.len() && ((#[trigger] s.items[j]).context == Some(0u8) || s.items[j].context == Some(1u8)) && !(
                s.items[j].value is Utf8);
            label_at(b, pos) == (if odd || !s.complete {
                Err::<LabelModel, Status>(Status::InvalidAction)
            } else if utf8::encode_utf8(label).len() > 16 || utf8::encode_utf8(value).len() > 16 {
                Err::<LabelModel, Status>(Status::ConstraintError)
            } else {
                Ok::<LabelModel, Status>(LabelModel { label, value })
            })
        }),
{
    let items = tlv::scan(b, pos).items;
    lemma_half(b, items, items.len() as int, 0);
    lemma_half(b, items, items.len() as int, 1);
    lemma_all_text(items, items.len() as int);
}

/// A label that is appended comes last, where there is room; a list takes the place of all labels; and what is refused changes
/// nothing.
pub proof fn law_labels_are_written<const N: usize>(
    before: UserLabel<N>,
    after: UserLabel<N>,
    resolved: Resolved,
    b: Seq<u8>,
    op: WriteOp,
    ctx: InteractionContext,
    r: Result<(), Status>,
)
    requires
        UserLabel::writes(&before, &after, resolved, b, op, ctx, r),
    ensures
        r is Err ==> after.labels.models() == before.labels.models(),
        resolved.attribute != 0x0000 ==> r == Err::<(), Status>(Status::UnsupportedWrite),
        resolved.attribute == 0x0000 ==> match tlv::element_at(b, 0) {
            None => r == Err::<(), Status>(Status::InvalidAction),
            Some((e, _)) => if op is Append {
                if !e.is_structure() {
                    r == Err::<(), Status>(Status::InvalidAction)
                } else {
                    match label_at(b, e.content()) {
                        Err(status) => r == Err::<(), Status>(status),
                        Ok(l) => if before.labels.models().len() >= N {
                            r == Err::<(), Status>(Status::ResourceExhausted)
                        } else {
                            r is Ok && after.labels.models() == before.labels.models().push(l)
                        },
                    }
                }
            } else {
                if !e.is_array() {
                    r == Err::<(), Status>(Status::InvalidAction)
                } else {
                    match labels_at(b, e.content(), N as nat) {
                        Err(status) => r == Err::<(), Status>(status),
                        Ok(new) => r is Ok && after.labels.models() == new,
                    }
                }
            },
        },
{
}

} // verus!
