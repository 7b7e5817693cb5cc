//! Descriptor, cluster `0x001D`: what an endpoint is.
//!
//! What it serves, claims to be and uses as a client is read from the node itself, so that it
//! cannot say anything else. Which endpoints it is made of has to be given.

use vstd::prelude::*;

use crate::clusters::dispatch::Cluster;
use crate::dm;
use crate::dm::{AttributeDescriptor, AttributeQualities, ClusterDescriptor, ClusterModel, DeviceType, Node};
use crate::im;
use crate::im::{
    AttributeId, ClusterHandler, ClusterId, EndpointId, InteractionContext, InvokeAnswer, Lifecycle, ReadAnswer, Reply, Resolved,
    ResolvedCommand, Status, StatusIb, WriteOp,
};
use crate::msg::VendorId;
use crate::tlv;
use crate::tlv::Tag;

verus! {

/// The cluster.
pub const ID: ClusterId = 0x001D;

/// Its revision.
pub const REVISION: u16 = 3;

/// `DeviceTypeList`.
pub const DEVICE_TYPE_LIST: AttributeId = 0x0000;

/// `ServerList`.
pub const SERVER_LIST: AttributeId = 0x0001;

/// `ClientList`.
pub const CLIENT_LIST: AttributeId = 0x0002;

/// `PartsList`.
pub const PARTS_LIST: AttributeId = 0x0003;

/// `TagList`.
pub const TAG_LIST: AttributeId = 0x0004;

/// `EndpointUniqueID`.
pub const ENDPOINT_UNIQUE_ID: AttributeId = 0x0005;

/// `TAGLIST`: there are tags.
pub const FEATURE_TAG_LIST: u32 = 0x01;

/// What tells an endpoint from others of its kind.
#[derive(Debug, Clone, Copy)]
pub struct SemanticTag<'a> {
    /// The vendor that defined the namespace, where it is none of the standard ones.
    pub mfg_code: Option<VendorId>,
    /// The namespace.
    pub namespace_id: u8,
    /// The tag.
    pub tag: u8,
    /// What to call it.
    pub label: Option<&'a str>,
}

/// The attributes that an endpoint has, given whether it has tags and an identifier of its own.
pub open spec fn attributes(tags: bool, unique_id: bool) -> Seq<AttributeDescriptor> {
    seq![
        dm::readable(DEVICE_TYPE_LIST, dm::fixed_value()),
        dm::readable(SERVER_LIST, dm::fixed_value()),
        dm::readable(CLIENT_LIST, dm::fixed_value()),
        dm::readable(PARTS_LIST, dm::plain_value()),
    ] + (if tags { seq![dm::readable(TAG_LIST, dm::fixed_value())] } else { Seq::empty() }) + (if unique_id {
        seq![dm::readable(ENDPOINT_UNIQUE_ID, dm::fixed_value())]
    } else {
        Seq::empty()
    })
}

/// How the cluster describes itself, given whether the endpoint has tags and an identifier.
pub open spec fn description(tags: bool, unique_id: bool) -> ClusterModel {
    ClusterModel {
        id: ID,
        revision: REVISION,
        feature_map: if tags { FEATURE_TAG_LIST } else { 0 },
        attributes: attributes(tags, unique_id),
        accepted_commands: Seq::empty(),
        generated_commands: Seq::empty(),
        events: Seq::empty(),
    }
}

fn descriptor_with(tags: bool, unique_id: bool) -> (d: ClusterDescriptor)
    ensures
        d@ == description(tags, unique_id),
{
    let mut list: Vec<AttributeDescriptor> = Vec::new();
    list.push(AttributeDescriptor::read_only(DEVICE_TYPE_LIST).with_qualities(AttributeQualities::fixed()));
    list.push(AttributeDescriptor::read_only(SERVER_LIST).with_qualities(AttributeQualities::fixed()));
    list.push(AttributeDescriptor::read_only(CLIENT_LIST).with_qualities(AttributeQualities::fixed()));
    list.push(AttributeDescriptor::read_only(PARTS_LIST));
    if tags {
        list.push(AttributeDescriptor::read_only(TAG_LIST).with_qualities(AttributeQualities::fixed()));
    }
    if unique_id {
        list.push(AttributeDescriptor::read_only(ENDPOINT_UNIQUE_ID).with_qualities(AttributeQualities::fixed()));
    }
    proof {
        assert(list@ =~= attributes(tags, unique_id));
    }
    ClusterDescriptor {
        id: ID,
        revision: REVISION,
        feature_map: if tags { FEATURE_TAG_LIST } else { 0 },
        attributes: list,
        accepted_commands: Vec::new(),
        generated_commands: Vec::new(),
        events: Vec::new(),
    }
}

/// The description for an endpoint without tags and identifier.
pub fn cluster() -> (d: ClusterDescriptor)
    ensures
        d@ == description(false, false),
{
    descriptor_with(false, false)
}

/// The description for an endpoint with tags.
pub fn cluster_with_tags() -> (d: ClusterDescriptor)
    ensures
        d@ == description(true, false),
{
    descriptor_with(true, false)
}

/// The description for an endpoint with an identifier.
pub fn cluster_with_unique_id() -> (d: ClusterDescriptor)
    ensures
        d@ == description(false, true),
{
    descriptor_with(false, true)
}

/// The description for an endpoint with tags and an identifier.
pub fn cluster_full() -> (d: ClusterDescriptor)
    ensures
        d@ == description(true, true),
{
    descriptor_with(true, true)
}

/// A device type as an item of a list.
pub open spec fn device_type_bytes() -> spec_fn(DeviceType) -> Seq<u8> {
    |d: DeviceType|
        tlv::structure_bytes(
            Tag::Anonymous,
            tlv::unsigned_bytes(Tag::Context(0), d.device_type as u64) + tlv::unsigned_bytes(
                Tag::Context(1),
                d.revision as u64,
            ),
        )
}

/// A text, where there is one.
pub open spec fn optional_text(tag: Tag, s: Option<&str>) -> Seq<u8> {
    match s {
        Some(s) => tlv::text_bytes(tag, s@),
        None => Seq::empty(),
    }
}

/// A vendor's number, where there is one.
pub open spec fn vendor_of(v: Option<VendorId>) -> Option<u64> {
    match v {
        Some(v) => Some(v.0 as u64),
        None => None,
    }
}

/// A tag as an item of a list.
pub open spec fn tag_bytes<'a>() -> spec_fn(SemanticTag<'a>) -> Seq<u8> {
    |t: SemanticTag<'a>|
        tlv::structure_bytes(
            Tag::Anonymous,
            tlv::nullable_bytes(Tag::Context(0), vendor_of(t.mfg_code)) + tlv::unsigned_bytes(
                Tag::Context(1),
                t.namespace_id as u64,
            ) + tlv::unsigned_bytes(Tag::Context(2), t.tag as u64) + optional_text(Tag::Context(3), t.label),
        )
}

/// The ids of clusters.
pub open spec fn cluster_ids(clusters: Seq<ClusterDescriptor>) -> Seq<ClusterId> {
    clusters.map_values(|c: ClusterDescriptor| c.id)
}

fn put_device_type(out: &mut Vec<u8>, d: &DeviceType)
    ensures
        final(out)@ == old(out)@ + device_type_bytes()(*d),
{
    let mut body: Vec<u8> = Vec::new();
    tlv::put_unsigned(&mut body, Tag::Context(0), d.device_type as u64);
    tlv::put_unsigned(&mut body, Tag::Context(1), d.revision as u64);
    proof {
        assert(body@ =~= tlv::unsigned_bytes(Tag::Context(0), d.device_type as u64) + tlv::unsigned_bytes(
            Tag::Context(1),
            d.revision as u64,
        ));
    }
    tlv::put_structure(out, Tag::Anonymous, &body);
}

fn encode_device_types(tag: Tag, types: &[DeviceType]) -> (out: Vec<u8>)
    ensures
        out@ == tlv::array_bytes(tag, tlv::concat(types@, device_type_bytes())),
{
    let mut body: Vec<u8> = Vec::new();
    let mut i: usize = 0;
    proof {
        assert(types@.take(0) =~= Seq::<DeviceType>::empty());
        assert(body@ =~= tlv::concat(types@.take(0), device_type_bytes()));
    }
    while i < types.len()
        invariant
            i <= types@.len(),
            body@ == tlv::concat(types@.take(i as int), device_type_bytes()),
        decreases types.len() - i,
    {
        put_device_type(&mut body, &types[i]);
        proof {
            tlv::lemma_concat_take(types@, i as int, device_type_bytes());
        }
        i = i + 1;
    }
    let mut out: Vec<u8> = Vec::new();
    tlv::put_array(&mut out, tag, &body);
    proof {
        assert(types@.take(i as int) =~= types@);
        assert(out@ =~= tlv::array_bytes(tag, body@));
    }
    out
}

fn put_tag(out: &mut Vec<u8>, t: &SemanticTag)
    ensures
        final(out)@ == old(out)@ + tag_bytes()(*t),
{
    let mut body: Vec<u8> = Vec::new();
    tlv::put_nullable(
        &mut body,
        Tag::Context(0),
        match t.mfg_code {
            Some(v) => Some(v.0 as u64),
            None => None,
        },
    );
    tlv::put_unsigned(&mut body, Tag::Context(1), t.namespace_id as u64);
    tlv::put_unsigned(&mut body, Tag::Context(2), t.tag as u64);
    let ghost head = body@;
    if let Some(label) = t.label {
        tlv::put_text(&mut body, Tag::Context(3), label);
    }
    proof {
        assert(body@ =~= head + optional_text(Tag::Context(3), t.label));
        assert(body@ =~= tlv::nullable_bytes(Tag::Context(0), vendor_of(t.mfg_code)) + tlv::unsigned_bytes(
            Tag::Context(1),
            t.namespace_id as u64,
        ) + tlv::unsigned_bytes(Tag::Context(2), t.tag as u64) + optional_text(Tag::Context(3), t.label));
    }
    tlv::put_structure(out, Tag::Anonymous, &body);
}

fn encode_tags(tag: Tag, tags: &[SemanticTag]) -> (out: Vec<u8>)
    ensures
        out@ == tlv::array_bytes(tag, tlv::concat(tags@, tag_bytes())),
{
    let mut body: Vec<u8> = Vec::new();
    let mut i: usize = 0;
    proof {
        assert(tags@.take(0) =~= Seq::<SemanticTag>::empty());
        assert(body@ =~= tlv::concat(tags@.take(0), tag_bytes()));
    }
    while i < tags.len()
        invariant
            i <= tags@.len(),
            body@ == tlv::concat(tags@.take(i as int), tag_bytes()),
        decreases tags.len() - i,
    {
        put_tag(&mut body, &tags[i]);
        proof {
            tlv::lemma_concat_take(tags@, i as int, tag_bytes());
        }
        i = i + 1;
    }
    let mut out: Vec<u8> = Vec::new();
    tlv::put_array(&mut out, tag, &body);
    proof {
        assert(tags@.take(i as int) =~= tags@);
        assert(out@ =~= tlv::array_bytes(tag, body@));
    }
    out
}

fn write_cluster_ids(tag: Tag, ids: &[ClusterId]) -> (out: Vec<u8>)
    ensures
        out@ == tlv::numbers_bytes(tag, ids@),
{
    let mut out: Vec<u8> = Vec::new();
    tlv::put_numbers(&mut out, tag, ids);
    proof {
        assert(out@ =~= tlv::numbers_bytes(tag, ids@));
    }
    out
}

fn ids_of(clusters: &[ClusterDescriptor]) -> (ids: Vec<ClusterId>)
    ensures
        ids@ == cluster_ids(clusters@),
{
    let mut ids: Vec<ClusterId> = Vec::new();
    let mut i: usize = 0;
    while i < clusters.len()
        invariant
            i <= clusters@.len(),
            ids@ == cluster_ids(clusters@).take(i as int),
        decreases clusters.len() - i,
    {
        ids.push(clusters[i].id);
        i = i + 1;
        proof {
            assert(ids@ =~= cluster_ids(clusters@).take(i as int));
        }
    }
    proof {
        assert(cluster_ids(clusters@).take(i as int) =~= cluster_ids(clusters@));
    }
    ids
}

/// The Descriptor of one endpoint.
#[derive(Debug, Clone, Copy)]
pub struct Descriptor<'a> {
    /// The node.
    pub node: Node<'a>,
    /// The endpoint.
    pub endpoint: EndpointId,
    /// The endpoints that it is made of.
    pub parts: &'a [EndpointId],
    /// What tells it from others of its kind.
    pub tags: &'a [SemanticTag<'a>],
    /// Its identifier.
    pub unique_id: Option<&'a str>,
}

impl<'a> Descriptor<'a> {
    /// What the endpoint claims to be; nothing where the node does not have it.
    pub open spec fn claimed(&self) -> Seq<DeviceType> {
        match self.node.at(self.endpoint) {
            Some(e) => e.device_types@,
            None => Seq::empty(),
        }
    }

    /// What the endpoint uses as a client; nothing where the node does not have it.
    pub open spec fn used(&self) -> Seq<ClusterId> {
        match self.node.at(self.endpoint) {
            Some(e) => e.clients@,
            None => Seq::empty(),
        }
    }

    /// The attributes that the description lists.
    pub open spec fn listed(&self) -> Seq<AttributeDescriptor> {
        attributes(self.tags@.len() > 0, self.unique_id is Some)
    }

    /// The Descriptor of an endpoint that is made of no others.
    pub fn new(node: Node<'a>, endpoint: EndpointId) -> (d: Self)
        ensures
            d.node == node,
            d.endpoint == endpoint,
            d.parts@ == Seq::<EndpointId>::empty(),
            d.tags@ == Seq::<SemanticTag>::empty(),
            d.unique_id is None,
    {
        Descriptor { node, endpoint, parts: &[], tags: &[], unique_id: None }
    }

    /// What the endpoint claims to be.
    pub fn device_types(&self) -> (types: &'a [DeviceType])
        ensures
            types@ == self.claimed(),
    {
        match self.node.endpoint(self.endpoint) {
            Some(endpoint) => endpoint.device_types,
            None => &[],
        }
    }

    /// What the endpoint uses as a client.
    pub fn clients(&self) -> (clients: &'a [ClusterId])
        ensures
            clients@ == self.used(),
    {
        match self.node.endpoint(self.endpoint) {
            Some(endpoint) => endpoint.clients,
            None => &[],
        }
    }

    /// The same, made of endpoints.
    pub fn with_parts(self, parts: &'a [EndpointId]) -> (d: Self)
        ensures
            d == (Descriptor { parts, ..self }),
    {
        Descriptor { parts, ..self }
    }

    /// The same, with tags.
    pub fn with_tags(self, tags: &'a [SemanticTag<'a>]) -> (d: Self)
        ensures
            d == (Descriptor { tags, ..self }),
    {
        Descriptor { tags, ..self }
    }

    /// The same, with an identifier.
    pub fn with_unique_id(self, unique_id: &'a str) -> (d: Self)
        ensures
            d == (Descriptor { unique_id: Some(unique_id), ..self }),
    {
        Descriptor { unique_id: Some(unique_id), ..self }
    }

    /// How the cluster describes itself on this endpoint.
    pub fn descriptor(&self) -> (d: ClusterDescriptor)
        ensures
            d@ == description(self.tags@.len() > 0, self.unique_id is Some),
    {
        match (self.tags.len() > 0, self.unique_id.is_some()) {
            (false, false) => cluster(),
            (true, false) => cluster_with_tags(),
            (false, true) => cluster_with_unique_id(),
            (true, true) => cluster_full(),
        }
    }
}

impl<'a> Cluster for Descriptor<'a> {
    const ID: ClusterId = ID;
}

impl<'a> ClusterHandler for Descriptor<'a> {
    open spec fn answers(&self, resolved: Resolved, ctx: InteractionContext, tag: Tag, a: ReadAnswer) -> bool {
        let id = resolved.attribute;
        a == if resolved.endpoint != self.endpoint {
            Err::<Seq<u8>, Status>(Status::UnsupportedEndpoint)
        } else if id == DEVICE_TYPE_LIST {
            Ok(tlv::array_bytes(tag, tlv::concat(self.claimed(), device_type_bytes())))
        } else if id == SERVER_LIST {
            match self.node.at(self.endpoint) {
                Some(e) => Ok(tlv::numbers_bytes(tag, cluster_ids(e.clusters@))),
                None => Err::<Seq<u8>, Status>(Status::UnsupportedEndpoint),
            }
        } else if id == CLIENT_LIST {
            Ok(tlv::numbers_bytes(tag, self.used()))
        } else if id == PARTS_LIST {
            Ok(tlv::numbers_bytes(tag, self.parts@))
        } else if id == TAG_LIST && self.tags@.len() > 0 {
            Ok(tlv::array_bytes(tag, tlv::concat(self.tags@, tag_bytes())))
        } else if id == ENDPOINT_UNIQUE_ID && self.unique_id is Some {
            Ok(tlv::text_bytes(tag, self.unique_id.unwrap()@))
        } else {
            Err::<Seq<u8>, Status>(Status::UnsupportedAttribute)
        }
    }

    open spec fn writes(
        before: &Self,
        after: &Self,
        resolved: Resolved,
        data: Seq<u8>,
        op: WriteOp,
        ctx: InteractionContext,
        r: Result<(), Status>,
    ) -> bool {
        *after == *before && r == Err::<(), Status>(Status::UnsupportedWrite)
    }

    open spec fn invokes(
        before: &Self,
        after: &Self,
        resolved: ResolvedCommand,
        fields: Option<Seq<u8>>,
        ctx: InteractionContext,
        tag: Tag,
        a: InvokeAnswer,
    ) -> bool {
        *after == *before && a == im::refused(Status::UnsupportedCommand)
    }

    open spec fn outlives(before: &Self, after: &Self, event: Lifecycle) -> bool {
        *after == *before
    }

    open spec fn unfit(&self, resolved: ResolvedCommand) -> Status {
        Status::Failure
    }

    fn answer(&self, resolved: &Resolved, ctx: &InteractionContext, tag: Tag) -> (a: Result<Vec<u8>, Status>) {
        if resolved.endpoint != self.endpoint {
            return Err(Status::UnsupportedEndpoint);
        }
        match resolved.attribute {
            DEVICE_TYPE_LIST => Ok(encode_device_types(tag, self.device_types())),
            SERVER_LIST => match self.node.endpoint(self.endpoint) {
                None => Err(Status::UnsupportedEndpoint),
                Some(endpoint) => {
                    let ids: Vec<ClusterId> = ids_of(endpoint.clusters);
                    Ok(write_cluster_ids(tag, ids.as_slice()))
                },
            },
            CLIENT_LIST => Ok(write_cluster_ids(tag, self.clients())),
            PARTS_LIST => {
                let mut out: Vec<u8> = Vec::new();
                tlv::put_numbers(&mut out, tag, self.parts);
                proof {
                    assert(out@ =~= tlv::numbers_bytes(tag, self.parts@));
                }
                Ok(out)
            },
            TAG_LIST => {
                if self.tags.len() > 0 {
                    Ok(encode_tags(tag, self.tags))
                } else {
                    Err(Status::UnsupportedAttribute)
                }
            },
            ENDPOINT_UNIQUE_ID => match self.unique_id {
                None => Err(Status::UnsupportedAttribute),
                Some(unique_id) => {
                    let mut out: Vec<u8> = Vec::new();
                    tlv::put_text(&mut out, tag, unique_id);
                    proof {
                        assert(out@ =~= tlv::text_bytes(tag, unique_id@));
                    }
                    Ok(out)
                },
            },
            _ => Err(Status::UnsupportedAttribute),
        }
    }

    fn write(&mut self, resolved: &Resolved, data: &[u8], op: WriteOp, ctx: &InteractionContext) -> (r: Result<(), Status>) {
        Err(Status::UnsupportedWrite)
    }

    fn perform(
        &mut self,
        resolved: &ResolvedCommand,
        fields: Option<&[u8]>,
        ctx: &InteractionContext,
        tag: Tag,
    ) -> (a: Result<Reply, StatusIb>) {
        im::refuse(Status::UnsupportedCommand)
    }

    fn on_lifecycle(&mut self, event: Lifecycle) {
    }

    fn unfit_status(&self, resolved: &ResolvedCommand) -> (s: Status) {
        Status::Failure
    }
}

/// Every attribute that the description lists is answered on an endpoint that the node has, and an
/// attribute that it does not list is not supported.
pub proof fn law_what_is_listed_is_served(
    d: Descriptor,
    attribute: AttributeId,
    ctx: InteractionContext,
    tag: Tag,
    a: ReadAnswer,
)
    requires
        d.node.at(d.endpoint) is Some,
        d.answers(Resolved { endpoint: d.endpoint, cluster: ID, attribute }, ctx, tag, a),
    ensures
        (a is Ok) == (exists|i: int| 0 <= i < d.listed().len() && (#[trigger] d.listed()[i]).id == attribute),
        a is Err ==> a == Err::<Seq<u8>, Status>(Status::UnsupportedAttribute),
{
    let list = d.listed();
    assert(list[0].id == DEVICE_TYPE_LIST && list[1].id == SERVER_LIST && list[2].id == CLIENT_LIST && list[3].id
        == PARTS_LIST);
    if d.tags@.len() > 0 {
        assert(list[4].id == TAG_LIST);
        if d.unique_id is Some {
            assert(list[5].id == ENDPOINT_UNIQUE_ID);
        }
    } else if d.unique_id is Some {
        assert(list[4].id == ENDPOINT_UNIQUE_ID);
    }
}

/// A Descriptor never answers for another endpoint.
pub proof fn law_another_endpoint_is_not_described(
    d: Descriptor,
    resolved: Resolved,
    ctx: InteractionContext,
    tag: Tag,
    a: ReadAnswer,
)
    requires
        resolved.endpoint != d.endpoint,
        d.answers(resolved, ctx, tag, a),
    ensures
        a == Err::<Seq<u8>, Status>(Status::UnsupportedEndpoint),
{
}

/// What a read shows is what the endpoint is: what it claims to be, each cluster that it serves and each that it uses, the
/// endpoints that it is made of, its tags and its identifier, every one and in order.
pub proof fn law_an_endpoint_is_read_as_it_is<'a>(
    d: Descriptor<'a>,
    i: int,
    resolved: Resolved,
    ctx: InteractionContext,
    tag: Tag,
    a: ReadAnswer,
)
    requires
        d.answers(resolved, ctx, tag, a),
        resolved.endpoint == d.endpoint,
        0 <= i < d.node.endpoints@.len(),
        d.node.endpoints@[i].id == d.endpoint,
        forall|j: int| 0 <= j < i ==> (#[trigger] d.node.endpoints@[j]).id != d.endpoint,
    ensures
        ({
            let e = d.node.endpoints@[i];
            let id = resolved.attribute;
            let shown = |b: Seq<u8>| a == Ok::<Seq<u8>, Status>(b);
            &&& id == 0x0000 ==> shown(tlv::array_bytes(tag, tlv::concat(e.device_types@, device_type_bytes())))
            &&& id == 0x0001 ==> shown(
                tlv::array_bytes(tag, tlv::concat(e.clusters@, |c: ClusterDescriptor| tlv::unsigned_bytes(Tag::Anonymous, c.id as u64))),
            )
            &&& id == 0x0002 ==> shown(
                tlv::array_bytes(tag, tlv::concat(e.clients@, |c: ClusterId| tlv::unsigned_bytes(Tag::Anonymous, c as u64))),
            )
            &&& id == 0x0003 ==> shown(
                tlv::array_bytes(tag, tlv::concat(d.parts@, |p: EndpointId| tlv::unsigned_bytes(Tag::Anonymous, p as u64))),
            )
            &&& id == 0x0004 && d.tags@.len() > 0 ==> shown(tlv::array_bytes(tag, tlv::concat(d.tags@, tag_bytes())))
            &&& id == 0x0005 && d.unique_id is Some ==> shown(tlv::text_bytes(tag, d.unique_id->Some_0@))
        }),
        forall|t: DeviceType| #[trigger] device_type_bytes()(t) == tlv::structure_bytes(
            Tag::Anonymous,
            tlv::unsigned_bytes(Tag::Context(0), t.device_type as u64) + tlv::unsigned_bytes(Tag::Context(1), t.revision as u64),
        ),
        forall|t: SemanticTag<'a>| #[trigger] tag_bytes()(t) == tlv::structure_bytes(
            Tag::Anonymous,
            (match t.mfg_code {
                Some(v) => tlv::unsigned_bytes(Tag::Context(0), v.0 as u64),
                None => tlv::null_bytes(Tag::Context(0)),
            }) + tlv::unsigned_bytes(Tag::Context(1), t.namespace_id as u64) + tlv::unsigned_bytes(Tag::Context(2), t.tag as u64) + (
            match t.label {
                Some(s) => tlv::text_bytes(Tag::Context(3), s@),
                None => Seq::empty(),
            }),
        ),
{
    let p = dm::endpoint_is(d.endpoint);
    crate::bounded::lemma_first(d.node.endpoints@, p);
    assert(p(d.node.endpoints@[i]));
    let at = crate::bounded::first(d.node.endpoints@, p)->Some_0;
    assert(p(d.node.endpoints@[at]));
    assert(at == i);
    let e = d.node.endpoints@[i];
    let f = |c: ClusterDescriptor| tlv::unsigned_bytes(Tag::Anonymous, c.id as u64);
    let g = |c: ClusterDescriptor| c.id;
    let h = |c: ClusterId| tlv::unsigned_bytes(Tag::Anonymous, c as u64);
    assert forall|x: ClusterDescriptor| f(x) == #[trigger] h(g(x)) by {}
    tlv::lemma_concat_map(e.clusters@, f, g, h);
    assert(cluster_ids(e.clusters@) =~= e.clusters@.map_values(g));
    assert(tlv::item_bytes::<ClusterId>() =~= h);
    assert(tlv::item_bytes::<EndpointId>() =~= |x: EndpointId| tlv::unsigned_bytes(Tag::Anonymous, x as u64));
}

} // verus!
