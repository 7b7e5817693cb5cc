//! What a cluster has, worked out from its features and from what a product chooses.
//!
//! A cluster's definition says of each element when it is there: always, with a feature, or where
//! the product names it. What a device then describes follows from that and is not written by hand.

use vstd::prelude::*;

use crate::dm;
use crate::dm::{
    Access, AccessQualities, AttributeDescriptor, ClusterDescriptor, ClusterModel, CommandDescriptor, EventDescriptor,
    EventPriority, Privilege,
};
use crate::error::ErrorCode;
use crate::im::{AttributeId, ClusterId, CommandId, EventId};

verus! {

/// When an element is there.
#[derive(Debug, Clone, Copy, PartialEq, Eq, Structural)]
pub enum Conformance {
    /// Always.
    Mandatory,
    /// Where the product names it.
    Optional,
    /// With one of these features.
    With(u32),
    /// With all of these features.
    WithAll(u32),
    /// With one of these features, and where the product names it.
    OptionalWith(u32),
}

/// Whether an element is there.
pub open spec fn present(c: Conformance, id: u32, features: u32, named: Seq<u32>) -> bool {
    match c {
        Conformance::Mandatory => true,
        Conformance::Optional => named.contains(id),
        Conformance::With(mask) => features & mask != 0,
        Conformance::WithAll(mask) => features & mask == mask,
        Conformance::OptionalWith(mask) => features & mask != 0 && named.contains(id),
    }
}

/// An element with an identifier.
pub trait Identified: Copy {
    /// The identifier.
    spec fn identity(self) -> u32;

    /// The identifier.
    fn identifier(self) -> (id: u32)
        ensures
            id == self.identity(),
    ;
}

impl Identified for AttributeDescriptor {
    open spec fn identity(self) -> u32 {
        self.id
    }

    fn identifier(self) -> (id: u32) {
        self.id
    }
}

impl Identified for CommandDescriptor {
    open spec fn identity(self) -> u32 {
        self.id
    }

    fn identifier(self) -> (id: u32) {
        self.id
    }
}

impl Identified for EventDescriptor {
    open spec fn identity(self) -> u32 {
        self.id
    }

    fn identifier(self) -> (id: u32) {
        self.id
    }
}

impl Identified for u32 {
    open spec fn identity(self) -> u32 {
        self
    }

    fn identifier(self) -> (id: u32) {
        self
    }
}

/// The elements that are there, among the first `n`.
pub open spec fn chosen<T: Identified>(items: Seq<(T, Conformance)>, n: int, features: u32, named: Seq<u32>) -> Seq<T>
    decreases n,
{
    if n <= 0 {
        Seq::empty()
    } else {
        let before = chosen(items, n - 1, features, named);
        if present(items[n - 1].1, items[n - 1].0.identity(), features, named) {
            before.push(items[n - 1].0)
        } else {
            before
        }
    }
}

fn contains(named: &Vec<u32>, id: u32) -> (r: bool)
    ensures
        r == named@.contains(id),
{
    let mut i: usize = 0;
    while i < named.len()
        invariant
            i <= named@.len(),
            forall|j: int| 0 <= j < i ==> named@[j] != id,
        decreases named.len() - i,
    {
        if named[i] == id {
            return true;
        }
        i = i + 1;
    }
    false
}

fn is_present(c: Conformance, id: u32, features: u32, named: &Vec<u32>) -> (r: bool)
    ensures
        r == present(c, id, features, named@),
{
    match c {
        Conformance::Mandatory => true,
        Conformance::Optional => contains(named, id),
        Conformance::With(mask) => features & mask != 0,
        Conformance::WithAll(mask) => features & mask == mask,
        Conformance::OptionalWith(mask) => features & mask != 0 && contains(named, id),
    }
}

fn choose_elements<T: Identified>(items: &Vec<(T, Conformance)>, features: u32, named: &Vec<u32>) -> (r: Vec<T>)
    ensures
        r@ == chosen(items@, items@.len() as int, features, named@),
{
    let mut r: Vec<T> = Vec::new();
    let mut i: usize = 0;
    while i < items.len()
        invariant
            i <= items@.len(),
            r@ == chosen(items@, i as int, features, named@),
        decreases items.len() - i,
    {
        let (item, c) = items[i];
        if is_present(c, item.identifier(), features, named) {
            r.push(item);
        }
        i = i + 1;
    }
    r
}

/// The elements that a product chooses to have.
#[derive(Debug)]
pub struct Optional {
    /// The attributes.
    pub attributes: Vec<AttributeId>,
    /// The commands.
    pub commands: Vec<CommandId>,
    /// The events.
    pub events: Vec<EventId>,
}

/// The elements that a product chooses to have, as a value.
pub struct OptionalModel {
    /// The attributes.
    pub attributes: Seq<AttributeId>,
    /// The commands.
    pub commands: Seq<CommandId>,
    /// The events.
    pub events: Seq<EventId>,
}

impl View for Optional {
    type V = OptionalModel;

    open spec fn view(&self) -> OptionalModel {
        OptionalModel { attributes: self.attributes@, commands: self.commands@, events: self.events@ }
    }
}

impl Optional {
    /// None.
    pub fn none() -> (o: Self)
        ensures
            o@ == (OptionalModel { attributes: Seq::empty(), commands: Seq::empty(), events: Seq::empty() }),
    {
        Optional { attributes: Vec::new(), commands: Vec::new(), events: Vec::new() }
    }
}

/// An attribute that View can read.
pub open spec fn reads(id: AttributeId, c: Conformance) -> (AttributeDescriptor, Conformance) {
    (dm::readable(id, dm::plain_value()), c)
}

/// An attribute that View can read and that writing needs a privilege for.
pub open spec fn writes(id: AttributeId, write: Privilege, c: Conformance) -> (AttributeDescriptor, Conformance) {
    (dm::writable(id, write, dm::plain_value()), c)
}

/// A command that a privilege can invoke.
pub open spec fn invokes(id: CommandId, invoke: Privilege, response: Option<CommandId>, c: Conformance) -> (
    CommandDescriptor,
    Conformance,
) {
    (dm::invocable(id, invoke, response), c)
}

/// A command that a privilege can invoke, with qualities of access.
pub open spec fn invokes_with(
    id: CommandId,
    invoke: Privilege,
    qualities: AccessQualities,
    response: Option<CommandId>,
    c: Conformance,
) -> (CommandDescriptor, Conformance) {
    (CommandDescriptor { id, access: Access { qualities, ..Access::invokes(invoke) }, response }, c)
}

/// An event.
pub open spec fn tells(id: EventId, priority: EventPriority, c: Conformance) -> (EventDescriptor, Conformance) {
    (EventDescriptor { id, priority }, c)
}

/// An attribute that View can read.
pub fn readable(id: AttributeId, c: Conformance) -> (r: (AttributeDescriptor, Conformance))
    ensures
        r == reads(id, c),
{
    (AttributeDescriptor::read_only(id), c)
}

/// An attribute that View can read and that writing needs a privilege for.
pub fn writable(id: AttributeId, write: Privilege, c: Conformance) -> (r: (AttributeDescriptor, Conformance))
    ensures
        r == writes(id, write, c),
{
    (AttributeDescriptor::read_write(id).with_access(Access::read_write_with(Privilege::View, write)), c)
}

/// A command that a privilege can invoke.
pub fn invocable(id: CommandId, invoke: Privilege, response: Option<CommandId>, c: Conformance) -> (r: (
    CommandDescriptor,
    Conformance,
))
    ensures
        r == invokes(id, invoke, response, c),
{
    (CommandDescriptor { id, access: Access::invoke(invoke), response }, c)
}

/// A command that a privilege can invoke, with qualities of access.
pub fn invocable_with(
    id: CommandId,
    invoke: Privilege,
    qualities: AccessQualities,
    response: Option<CommandId>,
    c: Conformance,
) -> (r: (CommandDescriptor, Conformance))
    ensures
        r == invokes_with(id, invoke, qualities, response, c),
{
    (CommandDescriptor { id, access: Access::invoke(invoke).with_qualities(qualities), response }, c)
}

/// An event.
pub fn event(id: EventId, priority: EventPriority, c: Conformance) -> (r: (EventDescriptor, Conformance))
    ensures
        r == tells(id, priority, c),
{
    (EventDescriptor { id, priority }, c)
}

/// A cluster's definition.
#[derive(Debug)]
pub struct Definition {
    /// Which cluster.
    pub id: ClusterId,
    /// Which revision of it.
    pub revision: u16,
    /// The features that it defines.
    pub features: u32,
    /// Its attributes.
    pub attributes: Vec<(AttributeDescriptor, Conformance)>,
    /// The commands that it accepts.
    pub commands: Vec<(CommandDescriptor, Conformance)>,
    /// The commands that it answers with.
    pub generated: Vec<(CommandId, Conformance)>,
    /// Its events.
    pub events: Vec<(EventDescriptor, Conformance)>,
}

/// A cluster's definition, as a value.
pub struct DefinitionModel {
    /// Which cluster.
    pub id: ClusterId,
    /// Which revision of it.
    pub revision: u16,
    /// The features that it defines.
    pub features: u32,
    /// Its attributes.
    pub attributes: Seq<(AttributeDescriptor, Conformance)>,
    /// The commands that it accepts.
    pub commands: Seq<(CommandDescriptor, Conformance)>,
    /// The commands that it answers with.
    pub generated: Seq<(CommandId, Conformance)>,
    /// Its events.
    pub events: Seq<(EventDescriptor, Conformance)>,
}

impl View for Definition {
    type V = DefinitionModel;

    open spec fn view(&self) -> DefinitionModel {
        DefinitionModel {
            id: self.id,
            revision: self.revision,
            features: self.features,
            attributes: self.attributes@,
            commands: self.commands@,
            generated: self.generated@,
            events: self.events@,
        }
    }
}

/// The description that follows from a definition; a feature that it does not define is refused.
pub open spec fn conform(d: DefinitionModel, features: u32, o: OptionalModel) -> Result<ClusterModel, ErrorCode> {
    if features & !d.features != 0 {
        Err(ErrorCode::InvalidArgument)
    } else {
        Ok(
            ClusterModel {
                id: d.id,
                revision: d.revision,
                feature_map: features,
                attributes: chosen(d.attributes, d.attributes.len() as int, features, o.attributes),
                accepted_commands: chosen(d.commands, d.commands.len() as int, features, o.commands),
                generated_commands: chosen(d.generated, d.generated.len() as int, features, o.commands),
                events: chosen(d.events, d.events.len() as int, features, o.events),
            },
        )
    }
}

/// A description that follows from a definition.
#[derive(Debug)]
pub struct Conforming {
    descriptor: ClusterDescriptor,
}

impl View for Conforming {
    type V = ClusterModel;

    closed spec fn view(&self) -> ClusterModel {
        self.descriptor@
    }
}

/// A description, as a value, or why there is none.
pub open spec fn outcome(r: Result<Conforming, ErrorCode>) -> Result<ClusterModel, ErrorCode> {
    match r {
        Ok(c) => Ok(c@),
        Err(code) => Err(code),
    }
}

impl Conforming {
    /// The description that follows from a definition.
    pub fn new(definition: &Definition, features: u32, optional: &Optional) -> (r: Result<Self, ErrorCode>)
        ensures
            outcome(r) == conform(definition@, features, optional@),
    {
        if features & !definition.features != 0 {
            return Err(ErrorCode::InvalidArgument);
        }
        Ok(
            Conforming {
                descriptor: ClusterDescriptor {
                    id: definition.id,
                    revision: definition.revision,
                    feature_map: features,
                    attributes: choose_elements(&definition.attributes, features, &optional.attributes),
                    accepted_commands: choose_elements(&definition.commands, features, &optional.commands),
                    generated_commands: choose_elements(&definition.generated, features, &optional.commands),
                    events: choose_elements(&definition.events, features, &optional.events),
                },
            },
        )
    }

    /// The description.
    pub fn descriptor(&self) -> (d: &ClusterDescriptor)
        ensures
            d@ == self@,
    {
        &self.descriptor
    }
}

/// An element is described exactly where its definition has it there.
pub proof fn law_chosen_is_present<T: Identified>(items: Seq<(T, Conformance)>, n: int, features: u32, named: Seq<u32>, x: T)
    requires
        0 <= n <= items.len(),
    ensures
        chosen(items, n, features, named).contains(x) <==> exists|i: int|
            0 <= i < n && (#[trigger] items[i]).0 == x && present(items[i].1, x.identity(), features, named),
    decreases n,
{
    if n > 0 {
        law_chosen_is_present(items, n - 1, features, named, x);
        let before = chosen(items, n - 1, features, named);
        let after = chosen(items, n, features, named);
        let last = items[n - 1];
        if present(last.1, last.0.identity(), features, named) {
            assert(after == before.push(last.0));
            if last.0 == x {
                assert(after[before.len() as int] == x);
            }
            if before.contains(x) {
                let k = choose|k: int| 0 <= k < before.len() && before[k] == x;
                assert(after[k] == x);
            }
            if after.contains(x) && last.0 != x {
                let k = choose|k: int| 0 <= k < after.len() && after[k] == x;
                assert(before[k] == x);
            }
        }
    }
}

/// A feature that the definition does not have is refused, whatever else is asked for.
pub proof fn law_an_undefined_feature_is_refused(d: DefinitionModel, features: u32, o: OptionalModel)
    ensures
        (conform(d, features, o) is Err) == (features & !d.features != 0),
{
}

/// An attribute that View can read, and that a privilege can write where one is named.
pub open spec fn shown_attribute(id: AttributeId, write: Option<Privilege>) -> AttributeDescriptor {
    AttributeDescriptor {
        id,
        access: Access {
            read: Some(Privilege::View),
            write,
            invoke: None,
            qualities: AccessQualities { fabric_scoped: false, fabric_sensitive: false, timed: false },
        },
        qualities: dm::AttributeQualities { non_volatile: false, fixed: false, nullable: false },
    }
}

/// A command that a privilege can invoke, for its own fabric or in a timed interaction where it says so.
pub open spec fn shown_command(id: CommandId, invoke: Privilege, fabric_scoped: bool, timed: bool, response: Option<CommandId>) -> CommandDescriptor {
    CommandDescriptor {
        id,
        access: Access {
            read: None,
            write: None,
            invoke: Some(invoke),
            qualities: AccessQualities { fabric_scoped, fabric_sensitive: false, timed },
        },
        response,
    }
}

/// An event of a priority.
pub open spec fn shown_event(id: EventId, priority: EventPriority) -> EventDescriptor {
    EventDescriptor { id, priority }
}

/// Whether no two elements have the same identifier.
pub open spec fn told_apart<T: Identified>(items: Seq<(T, Conformance)>) -> bool {
    forall|i: int, j: int|
        0 <= i < j < items.len() ==> (#[trigger] items[i]).0.identity() != (#[trigger] items[j]).0.identity()
}

/// Of elements that can be told apart, one is described exactly where its own conformance has it there.
pub proof fn lemma_described<T: Identified>(items: Seq<(T, Conformance)>, features: u32, named: Seq<u32>, x: T, k: int)
    requires
        0 <= k < items.len(),
        items[k].0 == x,
        told_apart(items),
    ensures
        chosen(items, items.len() as int, features, named).contains(x) == present(items[k].1, x.identity(), features, named),
{
    law_chosen_is_present(items, items.len() as int, features, named, x);
}

/// No more elements are described than there are.
pub proof fn lemma_at_most<T: Identified>(items: Seq<(T, Conformance)>, features: u32, named: Seq<u32>, n: int)
    requires
        0 <= n <= items.len(),
    ensures
        chosen(items, n, features, named).len() <= n,
    decreases n,
{
    if n > 0 {
        lemma_at_most(items, features, named, n - 1);
    }
}

/// When an element is there: one that is mandatory always, one that a feature brings with that feature, one that features bring
/// together with all of them, and one that is optional where the product names it, no feature being against it.
pub proof fn law_when_an_element_is_there(id: u32, features: u32, named: Seq<u32>, mask: u32, bit: u32)
    requires
        bit < 32,
    ensures
        present(Conformance::Mandatory, id, features, named),
        present(Conformance::Optional, id, features, named) == named.contains(id),
        (mask >> bit) & 1 == 1 && (features >> bit) & 1 == 1 ==> present(Conformance::With(mask), id, features, named),
        (mask >> bit) & 1 == 1 && (features >> bit) & 1 == 0 ==> !present(Conformance::WithAll(mask), id, features, named),
        !present(Conformance::With(mask), id, features, named) ==> present(Conformance::WithAll(mask), id, !features, named),
        present(Conformance::OptionalWith(mask), id, features, named) == (present(Conformance::With(mask), id, features, named)
            && present(Conformance::Optional, id, features, named)),
        !present(Conformance::With(0), id, features, named),
        present(Conformance::WithAll(0), id, features, named),
{
    assert((mask >> bit) & 1 == 1 && (features >> bit) & 1 == 1 ==> features & mask != 0) by (bit_vector)
        requires
            bit < 32,
    ;
    assert((mask >> bit) & 1 == 1 && (features >> bit) & 1 == 0 ==> features & mask != mask) by (bit_vector)
        requires
            bit < 32,
    ;
    assert((features & mask == 0) ==> (!features & mask == mask)) by (bit_vector);
    assert(features & 0 == 0) by (bit_vector);
}

} // verus!
