//! How many clusters answer as one: by the cluster's identifier on one endpoint, and by the endpoint
//! on a node that has more than one.

use vstd::prelude::*;

use crate::device;
use crate::device::{Defect, Definition};
use crate::dm::Endpoint;
use crate::im;
use crate::im::{
    ClusterHandler, ClusterId, EndpointId, InteractionContext, InvokeAnswer, Lifecycle, ReadAnswer, Reply, Resolved,
    ResolvedCommand, Status, StatusIb, WriteOp,
};
use crate::tlv::Tag;

verus! {

/// A cluster that knows which one it is.
pub trait Cluster: ClusterHandler {
    /// Which one.
    const ID: ClusterId;
}

/// No cluster: whatever it is asked for is not supported.
#[derive(Debug, Clone, Copy, PartialEq, Eq, Structural)]
pub struct Nobody;

impl ClusterHandler for Nobody {
    open spec fn answers(&self, resolved: Resolved, ctx: InteractionContext, tag: Tag, a: ReadAnswer) -> bool {
        a == Err::<Seq<u8>, Status>(Status::UnsupportedCluster)
    }

    open spec fn writes(
        before: &Self,
        after: &Self,
        resolved: Resolved,
        data: Seq<u8>,
        op: WriteOp,
        ctx: InteractionContext,
        r: Result<(), Status>,
    ) -> bool {
        r == Err::<(), Status>(Status::UnsupportedCluster)
    }

    open spec fn invokes(
        before: &Self,
        after: &Self,
        resolved: ResolvedCommand,
        fields: Option<Seq<u8>>,
        ctx: InteractionContext,
        tag: Tag,
        a: InvokeAnswer,
    ) -> bool {
        a == im::refused(Status::UnsupportedCluster)
    }

    open spec fn outlives(before: &Self, after: &Self, event: Lifecycle) -> bool {
        *after == *before
    }

    open spec fn unfit(&self, resolved: ResolvedCommand) -> Status {
        Status::Failure
    }

    fn answer(&self, resolved: &Resolved, ctx: &InteractionContext, tag: Tag) -> (a: Result<Vec<u8>, Status>) {
        Err(Status::UnsupportedCluster)
    }

    fn write(&mut self, resolved: &Resolved, data: &[u8], op: WriteOp, ctx: &InteractionContext) -> (r: Result<(), Status>) {
        Err(Status::UnsupportedCluster)
    }

    fn perform(
        &mut self,
        resolved: &ResolvedCommand,
        fields: Option<&[u8]>,
        ctx: &InteractionContext,
        tag: Tag,
    ) -> (a: Result<Reply, StatusIb>) {
        im::refuse(Status::UnsupportedCluster)
    }

    fn on_lifecycle(&mut self, event: Lifecycle) {
    }

    fn unfit_status(&self, resolved: &ResolvedCommand) -> (s: Status) {
        Status::Failure
    }
}

/// A cluster, and what answers for every other.
#[derive(Debug, Clone, Copy)]
pub struct Chain<A, R> {
    /// The cluster.
    pub first: A,
    /// What answers for every other.
    pub rest: R,
}

impl<A: Cluster, R: ClusterHandler> ClusterHandler for Chain<A, R> {
    open spec fn answers(&self, resolved: Resolved, ctx: InteractionContext, tag: Tag, a: ReadAnswer) -> bool {
        if resolved.cluster == A::ID {
            self.first.answers(resolved, ctx, tag, a)
        } else {
            self.rest.answers(resolved, ctx, tag, a)
        }
    }

    open spec fn writes(
        before: &Self,
        after: &Self,
        resolved: Resolved,
        data: Seq<u8>,
        op: WriteOp,
        ctx: InteractionContext,
        r: Result<(), Status>,
    ) -> bool {
        if resolved.cluster == A::ID {
            A::writes(&before.first, &after.first, resolved, data, op, ctx, r) && after.rest == before.rest
        } else {
            R::writes(&before.rest, &after.rest, resolved, data, op, ctx, r) && after.first == before.first
        }
    }

    open spec fn invokes(
        before: &Self,
        after: &Self,
        resolved: ResolvedCommand,
        fields: Option<Seq<u8>>,
        ctx: InteractionContext,
        tag: Tag,
        a: InvokeAnswer,
    ) -> bool {
        if resolved.cluster == A::ID {
            A::invokes(&before.first, &after.first, resolved, fields, ctx, tag, a) && after.rest == before.rest
        } else {
            R::invokes(&before.rest, &after.rest, resolved, fields, ctx, tag, a) && after.first == before.first
        }
    }

    open spec fn outlives(before: &Self, after: &Self, event: Lifecycle) -> bool {
        *after == *before
    }

    open spec fn unfit(&self, resolved: ResolvedCommand) -> Status {
        if resolved.cluster == A::ID {
            self.first.unfit(resolved)
        } else {
            self.rest.unfit(resolved)
        }
    }

    fn answer(&self, resolved: &Resolved, ctx: &InteractionContext, tag: Tag) -> (a: Result<Vec<u8>, Status>) {
        if resolved.cluster == A::ID {
            self.first.answer(resolved, ctx, tag)
        } else {
            self.rest.answer(resolved, ctx, tag)
        }
    }

    fn write(&mut self, resolved: &Resolved, data: &[u8], op: WriteOp, ctx: &InteractionContext) -> (r: Result<(), Status>) {
        if resolved.cluster == A::ID {
            self.first.write(resolved, data, op, ctx)
        } else {
            self.rest.write(resolved, data, op, ctx)
        }
    }

    fn perform(
        &mut self,
        resolved: &ResolvedCommand,
        fields: Option<&[u8]>,
        ctx: &InteractionContext,
        tag: Tag,
    ) -> (a: Result<Reply, StatusIb>) {
        if resolved.cluster == A::ID {
            self.first.perform(resolved, fields, ctx, tag)
        } else {
            self.rest.perform(resolved, fields, ctx, tag)
        }
    }

    /// Events of the node are for the clusters themselves, and are not passed on.
    fn on_lifecycle(&mut self, event: Lifecycle) {
    }

    fn unfit_status(&self, resolved: &ResolvedCommand) -> (s: Status) {
        if resolved.cluster == A::ID {
            self.first.unfit_status(resolved)
        } else {
            self.rest.unfit_status(resolved)
        }
    }

    fn data_version(&self, resolved: &Resolved) -> (v: Option<u32>)
        ensures
            resolved.cluster == A::ID ==> call_ensures(A::data_version, (&self.first, resolved), v),
            resolved.cluster != A::ID ==> call_ensures(R::data_version, (&self.rest, resolved), v),
    {
        if resolved.cluster == A::ID {
            self.first.data_version(resolved)
        } else {
            self.rest.data_version(resolved)
        }
    }
}

/// An endpoint's clusters.
#[derive(Debug, Clone, Copy)]
pub struct At<H> {
    /// The endpoint.
    pub endpoint: EndpointId,
    /// What answers on it.
    pub handler: H,
}

impl<H> At<H> {
    /// What answers on an endpoint.
    pub fn new(endpoint: EndpointId, handler: H) -> (a: Self)
        ensures
            a.endpoint == endpoint,
            a.handler == handler,
    {
        At { endpoint, handler }
    }
}

/// No endpoint: whatever it is asked for is not supported.
#[derive(Debug, Clone, Copy, PartialEq, Eq, Structural)]
pub struct Nowhere;

/// An endpoint, and what answers on every other.
#[derive(Debug, Clone, Copy)]
pub struct Route<H, R> {
    /// The endpoint.
    pub first: At<H>,
    /// What answers on every other.
    pub rest: R,
}

/// The endpoints of a node.
#[derive(Debug, Clone, Copy)]
pub struct Endpoints<T>(pub T);

impl ClusterHandler for Endpoints<Nowhere> {
    open spec fn answers(&self, resolved: Resolved, ctx: InteractionContext, tag: Tag, a: ReadAnswer) -> bool {
        a == Err::<Seq<u8>, Status>(Status::UnsupportedEndpoint)
    }

    open spec fn writes(
        before: &Self,
        after: &Self,
        resolved: Resolved,
        data: Seq<u8>,
        op: WriteOp,
        ctx: InteractionContext,
        r: Result<(), Status>,
    ) -> bool {
        r == Err::<(), Status>(Status::UnsupportedEndpoint)
    }

    open spec fn invokes(
        before: &Self,
        after: &Self,
        resolved: ResolvedCommand,
        fields: Option<Seq<u8>>,
        ctx: InteractionContext,
        tag: Tag,
        a: InvokeAnswer,
    ) -> bool {
        a == im::refused(Status::UnsupportedEndpoint)
    }

    open spec fn outlives(before: &Self, after: &Self, event: Lifecycle) -> bool {
        *after == *before
    }

    open spec fn unfit(&self, resolved: ResolvedCommand) -> Status {
        Status::Failure
    }

    fn answer(&self, resolved: &Resolved, ctx: &InteractionContext, tag: Tag) -> (a: Result<Vec<u8>, Status>) {
        Err(Status::UnsupportedEndpoint)
    }

    fn write(&mut self, resolved: &Resolved, data: &[u8], op: WriteOp, ctx: &InteractionContext) -> (r: Result<(), Status>) {
        Err(Status::UnsupportedEndpoint)
    }

    fn perform(
        &mut self,
        resolved: &ResolvedCommand,
        fields: Option<&[u8]>,
        ctx: &InteractionContext,
        tag: Tag,
    ) -> (a: Result<Reply, StatusIb>) {
        im::refuse(Status::UnsupportedEndpoint)
    }

    fn on_lifecycle(&mut self, event: Lifecycle) {
    }

    fn unfit_status(&self, resolved: &ResolvedCommand) -> (s: Status) {
        Status::Failure
    }
}

impl<H: ClusterHandler, R> ClusterHandler for Endpoints<Route<H, Endpoints<R>>> where Endpoints<R>: ClusterHandler {
    open spec fn answers(&self, resolved: Resolved, ctx: InteractionContext, tag: Tag, a: ReadAnswer) -> bool {
        if resolved.endpoint == self.0.first.endpoint {
            self.0.first.handler.answers(resolved, ctx, tag, a)
        } else {
            self.0.rest.answers(resolved, ctx, tag, a)
        }
    }

    open spec fn writes(
        before: &Self,
        after: &Self,
        resolved: Resolved,
        data: Seq<u8>,
        op: WriteOp,
        ctx: InteractionContext,
        r: Result<(), Status>,
    ) -> bool {
        &&& after.0.first.endpoint == before.0.first.endpoint
        &&& if resolved.endpoint == before.0.first.endpoint {
            H::writes(&before.0.first.handler, &after.0.first.handler, resolved, data, op, ctx, r) && after.0.rest
                == before.0.rest
        } else {
            Endpoints::<R>::writes(&before.0.rest, &after.0.rest, resolved, data, op, ctx, r) && after.0.first == before.0.first
        }
    }

    open spec fn invokes(
        before: &Self,
        after: &Self,
        resolved: ResolvedCommand,
        fields: Option<Seq<u8>>,
        ctx: InteractionContext,
        tag: Tag,
        a: InvokeAnswer,
    ) -> bool {
        &&& after.0.first.endpoint == before.0.first.endpoint
        &&& if resolved.endpoint == before.0.first.endpoint {
            H::invokes(&before.0.first.handler, &after.0.first.handler, resolved, fields, ctx, tag, a) && after.0.rest
                == before.0.rest
        } else {
            Endpoints::<R>::invokes(&before.0.rest, &after.0.rest, resolved, fields, ctx, tag, a) && after.0.first
                == before.0.first
        }
    }

    open spec fn outlives(before: &Self, after: &Self, event: Lifecycle) -> bool {
        *after == *before
    }

    open spec fn unfit(&self, resolved: ResolvedCommand) -> Status {
        if resolved.endpoint == self.0.first.endpoint {
            self.0.first.handler.unfit(resolved)
        } else {
            self.0.rest.unfit(resolved)
        }
    }

    fn answer(&self, resolved: &Resolved, ctx: &InteractionContext, tag: Tag) -> (a: Result<Vec<u8>, Status>) {
        if resolved.endpoint == self.0.first.endpoint {
            self.0.first.handler.answer(resolved, ctx, tag)
        } else {
            self.0.rest.answer(resolved, ctx, tag)
        }
    }

    fn write(&mut self, resolved: &Resolved, data: &[u8], op: WriteOp, ctx: &InteractionContext) -> (r: Result<(), Status>) {
        if resolved.endpoint == self.0.first.endpoint {
            self.0.first.handler.write(resolved, data, op, ctx)
        } else {
            self.0.rest.write(resolved, data, op, ctx)
        }
    }

    fn perform(
        &mut self,
        resolved: &ResolvedCommand,
        fields: Option<&[u8]>,
        ctx: &InteractionContext,
        tag: Tag,
    ) -> (a: Result<Reply, StatusIb>) {
        if resolved.endpoint == self.0.first.endpoint {
            self.0.first.handler.perform(resolved, fields, ctx, tag)
        } else {
            self.0.rest.perform(resolved, fields, ctx, tag)
        }
    }

    /// Events of the node are for the clusters themselves, and are not passed on.
    fn on_lifecycle(&mut self, event: Lifecycle) {
    }

    fn unfit_status(&self, resolved: &ResolvedCommand) -> (s: Status) {
        if resolved.endpoint == self.0.first.endpoint {
            self.0.first.handler.unfit_status(resolved)
        } else {
            self.0.rest.unfit_status(resolved)
        }
    }

    fn data_version(&self, resolved: &Resolved) -> (v: Option<u32>)
        ensures
            resolved.endpoint == self.0.first.endpoint ==> call_ensures(
                H::data_version,
                (&self.0.first.handler, resolved),
                v,
            ),
            resolved.endpoint != self.0.first.endpoint ==> call_ensures(
                Endpoints::<R>::data_version,
                (&self.0.rest, resolved),
                v,
            ),
    {
        if resolved.endpoint == self.0.first.endpoint {
            self.0.first.handler.data_version(resolved)
        } else {
            self.0.rest.data_version(resolved)
        }
    }
}

/// Clusters that can answer as one, each on a state of its own. Those that work on one state of the
/// node are put together in [`sharing`](crate::clusters::sharing), over what answers for the others.
pub trait Compose: Sized {
    /// What answers for all of them.
    type Handler: ClusterHandler;

    /// The handler that answers for all of them.
    spec fn composed(self) -> Self::Handler;

    /// Makes them answer as one, each for itself; the first of two with the same identifier answers.
    fn compose(self) -> (h: Self::Handler)
        ensures
            h == self.composed(),
    ;
}

impl<A: Cluster> Compose for (A,) {
    type Handler = Chain<A, Nobody>;

    open spec fn composed(self) -> Self::Handler {
        Chain { first: self.0, rest: Nobody }
    }

    fn compose(self) -> (h: Self::Handler) {
        Chain { first: self.0, rest: Nobody }
    }
}

impl<A: Cluster, B: Cluster> Compose for (A, B) {
    type Handler = Chain<A, <(B,) as Compose>::Handler>;

    open spec fn composed(self) -> Self::Handler {
        Chain { first: self.0, rest: (self.1,).composed() }
    }

    fn compose(self) -> (h: Self::Handler) {
        Chain { first: self.0, rest: (self.1,).compose() }
    }
}

impl<A: Cluster, B: Cluster, C: Cluster> Compose for (A, B, C) {
    type Handler = Chain<A, <(B, C) as Compose>::Handler>;

    open spec fn composed(self) -> Self::Handler {
        Chain { first: self.0, rest: (self.1, self.2).composed() }
    }

    fn compose(self) -> (h: Self::Handler) {
        Chain { first: self.0, rest: (self.1, self.2).compose() }
    }
}

impl<A: Cluster, B: Cluster, C: Cluster, D: Cluster> Compose for (A, B, C, D) {
    type Handler = Chain<A, <(B, C, D) as Compose>::Handler>;

    open spec fn composed(self) -> Self::Handler {
        Chain { first: self.0, rest: (self.1, self.2, self.3).composed() }
    }

    fn compose(self) -> (h: Self::Handler) {
        Chain { first: self.0, rest: (self.1, self.2, self.3).compose() }
    }
}

impl<A: Cluster, B: Cluster, C: Cluster, D: Cluster, E: Cluster> Compose for (A, B, C, D, E) {
    type Handler = Chain<A, <(B, C, D, E) as Compose>::Handler>;

    open spec fn composed(self) -> Self::Handler {
        Chain { first: self.0, rest: (self.1, self.2, self.3, self.4).composed() }
    }

    fn compose(self) -> (h: Self::Handler) {
        Chain { first: self.0, rest: (self.1, self.2, self.3, self.4).compose() }
    }
}

impl<A: Cluster, B: Cluster, C: Cluster, D: Cluster, E: Cluster, F: Cluster> Compose for (A, B, C, D, E, F) {
    type Handler = Chain<A, <(B, C, D, E, F) as Compose>::Handler>;

    open spec fn composed(self) -> Self::Handler {
        Chain { first: self.0, rest: (self.1, self.2, self.3, self.4, self.5).composed() }
    }

    fn compose(self) -> (h: Self::Handler) {
        Chain { first: self.0, rest: (self.1, self.2, self.3, self.4, self.5).compose() }
    }
}

impl<
    A: Cluster,
    B: Cluster,
    C: Cluster,
    D: Cluster,
    E: Cluster,
    F: Cluster,
    G: Cluster,
> Compose for (A, B, C, D, E, F, G) {
    type Handler = Chain<A, <(B, C, D, E, F, G) as Compose>::Handler>;

    open spec fn composed(self) -> Self::Handler {
        Chain { first: self.0, rest: (self.1, self.2, self.3, self.4, self.5, self.6).composed() }
    }

    fn compose(self) -> (h: Self::Handler) {
        Chain { first: self.0, rest: (self.1, self.2, self.3, self.4, self.5, self.6).compose() }
    }
}

impl<
    A: Cluster,
    B: Cluster,
    C: Cluster,
    D: Cluster,
    E: Cluster,
    F: Cluster,
    G: Cluster,
    H: Cluster,
> Compose for (A, B, C, D, E, F, G, H) {
    type Handler = Chain<A, <(B, C, D, E, F, G, H) as Compose>::Handler>;

    open spec fn composed(self) -> Self::Handler {
        Chain { first: self.0, rest: (self.1, self.2, self.3, self.4, self.5, self.6, self.7).composed() }
    }

    fn compose(self) -> (h: Self::Handler) {
        Chain { first: self.0, rest: (self.1, self.2, self.3, self.4, self.5, self.6, self.7).compose() }
    }
}

impl<
    A: Cluster,
    B: Cluster,
    C: Cluster,
    D: Cluster,
    E: Cluster,
    F: Cluster,
    G: Cluster,
    H: Cluster,
    I: Cluster,
> Compose for (A, B, C, D, E, F, G, H, I) {
    type Handler = Chain<A, <(B, C, D, E, F, G, H, I) as Compose>::Handler>;

    open spec fn composed(self) -> Self::Handler {
        Chain { first: self.0, rest: (self.1, self.2, self.3, self.4, self.5, self.6, self.7, self.8).composed() }
    }

    fn compose(self) -> (h: Self::Handler) {
        Chain { first: self.0, rest: (self.1, self.2, self.3, self.4, self.5, self.6, self.7, self.8).compose() }
    }
}

impl<
    A: Cluster,
    B: Cluster,
    C: Cluster,
    D: Cluster,
    E: Cluster,
    F: Cluster,
    G: Cluster,
    H: Cluster,
    I: Cluster,
    J: Cluster,
> Compose for (A, B, C, D, E, F, G, H, I, J) {
    type Handler = Chain<A, <(B, C, D, E, F, G, H, I, J) as Compose>::Handler>;

    open spec fn composed(self) -> Self::Handler {
        Chain { first: self.0, rest: (self.1, self.2, self.3, self.4, self.5, self.6, self.7, self.8, self.9).composed() }
    }

    fn compose(self) -> (h: Self::Handler) {
        Chain { first: self.0, rest: (self.1, self.2, self.3, self.4, self.5, self.6, self.7, self.8, self.9).compose() }
    }
}

impl<
    A: Cluster,
    B: Cluster,
    C: Cluster,
    D: Cluster,
    E: Cluster,
    F: Cluster,
    G: Cluster,
    H: Cluster,
    I: Cluster,
    J: Cluster,
    K: Cluster,
> Compose for (A, B, C, D, E, F, G, H, I, J, K) {
    type Handler = Chain<A, <(B, C, D, E, F, G, H, I, J, K) as Compose>::Handler>;

    open spec fn composed(self) -> Self::Handler {
        Chain { first: self.0, rest: (self.1, self.2, self.3, self.4, self.5, self.6, self.7, self.8, self.9, self.10).composed() }
    }

    fn compose(self) -> (h: Self::Handler) {
        Chain { first: self.0, rest: (self.1, self.2, self.3, self.4, self.5, self.6, self.7, self.8, self.9, self.10).compose() }
    }
}

impl<
    A: Cluster,
    B: Cluster,
    C: Cluster,
    D: Cluster,
    E: Cluster,
    F: Cluster,
    G: Cluster,
    H: Cluster,
    I: Cluster,
    J: Cluster,
    K: Cluster,
    L: Cluster,
> Compose for (A, B, C, D, E, F, G, H, I, J, K, L) {
    type Handler = Chain<A, <(B, C, D, E, F, G, H, I, J, K, L) as Compose>::Handler>;

    open spec fn composed(self) -> Self::Handler {
        Chain { first: self.0, rest: (self.1, self.2, self.3, self.4, self.5, self.6, self.7, self.8, self.9, self.10, self.11).composed() }
    }

    fn compose(self) -> (h: Self::Handler) {
        Chain { first: self.0, rest: (self.1, self.2, self.3, self.4, self.5, self.6, self.7, self.8, self.9, self.10, self.11).compose() }
    }
}

/// Endpoints that can answer as a node.
pub trait Routed: Sized {
    /// What answers for all of them.
    type Handler: ClusterHandler;

    /// The handler that answers for all of them.
    spec fn routed(self) -> Self::Handler;

    /// Makes them answer as a node, each for itself; the first of two with the same number answers.
    fn endpoints(self) -> (h: Self::Handler)
        ensures
            h == self.routed(),
    ;
}

impl<A: ClusterHandler> Routed for (At<A>,) {
    type Handler = Endpoints<Route<A, Endpoints<Nowhere>>>;

    open spec fn routed(self) -> Self::Handler {
        Endpoints(Route { first: self.0, rest: Endpoints(Nowhere) })
    }

    fn endpoints(self) -> (h: Self::Handler) {
        Endpoints(Route { first: self.0, rest: Endpoints(Nowhere) })
    }
}

impl<A: ClusterHandler, B: ClusterHandler> Routed for (At<A>, At<B>) {
    type Handler = Endpoints<Route<A, <(At<B>,) as Routed>::Handler>>;

    open spec fn routed(self) -> Self::Handler {
        Endpoints(Route { first: self.0, rest: (self.1,).routed() })
    }

    fn endpoints(self) -> (h: Self::Handler) {
        Endpoints(Route { first: self.0, rest: (self.1,).endpoints() })
    }
}

impl<A: ClusterHandler, B: ClusterHandler, C: ClusterHandler> Routed for (At<A>, At<B>, At<C>) {
    type Handler = Endpoints<Route<A, <(At<B>, At<C>) as Routed>::Handler>>;

    open spec fn routed(self) -> Self::Handler {
        Endpoints(Route { first: self.0, rest: (self.1, self.2).routed() })
    }

    fn endpoints(self) -> (h: Self::Handler) {
        Endpoints(Route { first: self.0, rest: (self.1, self.2).endpoints() })
    }
}

impl<
    A: ClusterHandler,
    B: ClusterHandler,
    C: ClusterHandler,
    D: ClusterHandler,
> Routed for (At<A>, At<B>, At<C>, At<D>) {
    type Handler = Endpoints<Route<A, <(At<B>, At<C>, At<D>) as Routed>::Handler>>;

    open spec fn routed(self) -> Self::Handler {
        Endpoints(Route { first: self.0, rest: (self.1, self.2, self.3).routed() })
    }

    fn endpoints(self) -> (h: Self::Handler) {
        Endpoints(Route { first: self.0, rest: (self.1, self.2, self.3).endpoints() })
    }
}

impl<
    A: ClusterHandler,
    B: ClusterHandler,
    C: ClusterHandler,
    D: ClusterHandler,
    E: ClusterHandler,
> Routed for (At<A>, At<B>, At<C>, At<D>, At<E>) {
    type Handler = Endpoints<Route<A, <(At<B>, At<C>, At<D>, At<E>) as Routed>::Handler>>;

    open spec fn routed(self) -> Self::Handler {
        Endpoints(Route { first: self.0, rest: (self.1, self.2, self.3, self.4).routed() })
    }

    fn endpoints(self) -> (h: Self::Handler) {
        Endpoints(Route { first: self.0, rest: (self.1, self.2, self.3, self.4).endpoints() })
    }
}

impl<
    A: ClusterHandler,
    B: ClusterHandler,
    C: ClusterHandler,
    D: ClusterHandler,
    E: ClusterHandler,
    F: ClusterHandler,
> Routed for (At<A>, At<B>, At<C>, At<D>, At<E>, At<F>) {
    type Handler = Endpoints<Route<A, <(At<B>, At<C>, At<D>, At<E>, At<F>) as Routed>::Handler>>;

    open spec fn routed(self) -> Self::Handler {
        Endpoints(Route { first: self.0, rest: (self.1, self.2, self.3, self.4, self.5).routed() })
    }

    fn endpoints(self) -> (h: Self::Handler) {
        Endpoints(Route { first: self.0, rest: (self.1, self.2, self.3, self.4, self.5).endpoints() })
    }
}

impl<
    A: ClusterHandler,
    B: ClusterHandler,
    C: ClusterHandler,
    D: ClusterHandler,
    E: ClusterHandler,
    F: ClusterHandler,
    G: ClusterHandler,
> Routed for (At<A>, At<B>, At<C>, At<D>, At<E>, At<F>, At<G>) {
    type Handler = Endpoints<Route<A, <(At<B>, At<C>, At<D>, At<E>, At<F>, At<G>) as Routed>::Handler>>;

    open spec fn routed(self) -> Self::Handler {
        Endpoints(Route { first: self.0, rest: (self.1, self.2, self.3, self.4, self.5, self.6).routed() })
    }

    fn endpoints(self) -> (h: Self::Handler) {
        Endpoints(Route { first: self.0, rest: (self.1, self.2, self.3, self.4, self.5, self.6).endpoints() })
    }
}

impl<
    A: ClusterHandler,
    B: ClusterHandler,
    C: ClusterHandler,
    D: ClusterHandler,
    E: ClusterHandler,
    F: ClusterHandler,
    G: ClusterHandler,
    H: ClusterHandler,
> Routed for (At<A>, At<B>, At<C>, At<D>, At<E>, At<F>, At<G>, At<H>) {
    type Handler = Endpoints<Route<A, <(At<B>, At<C>, At<D>, At<E>, At<F>, At<G>, At<H>) as Routed>::Handler>>;

    open spec fn routed(self) -> Self::Handler {
        Endpoints(Route { first: self.0, rest: (self.1, self.2, self.3, self.4, self.5, self.6, self.7).routed() })
    }

    fn endpoints(self) -> (h: Self::Handler) {
        Endpoints(Route { first: self.0, rest: (self.1, self.2, self.3, self.4, self.5, self.6, self.7).endpoints() })
    }
}

/// What keeps an endpoint from being what it claims to be.
pub fn validate_endpoint(endpoint: &Endpoint<'_>, device_type: &Definition) -> (found: Vec<Defect>)
    ensures
        found@ == device::defects(*endpoint, device_type.requirements@, device_type.requirements@.len() as int),
{
    device_type.validate(endpoint)
}

/// Whether nothing keeps an endpoint from being what it claims to be.
pub fn endpoint_satisfies(endpoint: &Endpoint<'_>, device_type: &Definition) -> (r: bool)
    ensures
        r == (device::defects(*endpoint, device_type.requirements@, device_type.requirements@.len() as int).len() == 0),
{
    device_type.is_satisfied_by(endpoint)
}

/// A write to a cluster moves that cluster and no other, and one to a cluster that nobody is moves
/// none and is not supported.
pub proof fn law_a_write_moves_one_cluster<A: Cluster, R: ClusterHandler>(
    before: Chain<A, R>,
    after: Chain<A, R>,
    resolved: Resolved,
    data: Seq<u8>,
    op: WriteOp,
    ctx: InteractionContext,
    r: Result<(), Status>,
)
    requires
        Chain::writes(&before, &after, resolved, data, op, ctx, r),
    ensures
        resolved.cluster != A::ID ==> after.first == before.first,
        resolved.cluster == A::ID ==> after.rest == before.rest,
        resolved.cluster == A::ID ==> A::writes(&before.first, &after.first, resolved, data, op, ctx, r),
{
}

/// A command to a cluster moves that cluster and no other.
pub proof fn law_a_command_moves_one_cluster<A: Cluster, R: ClusterHandler>(
    before: Chain<A, R>,
    after: Chain<A, R>,
    resolved: ResolvedCommand,
    fields: Option<Seq<u8>>,
    ctx: InteractionContext,
    tag: Tag,
    a: InvokeAnswer,
)
    requires
        Chain::invokes(&before, &after, resolved, fields, ctx, tag, a),
    ensures
        resolved.cluster != A::ID ==> after.first == before.first,
        resolved.cluster == A::ID ==> after.rest == before.rest,
        resolved.cluster == A::ID ==> A::invokes(&before.first, &after.first, resolved, fields, ctx, tag, a),
{
}

/// A cluster that is not among two is not supported, and asking for it moves neither.
pub proof fn law_an_unknown_cluster_is_not_supported<A: Cluster, B: Cluster>(
    before: Chain<A, Chain<B, Nobody>>,
    after: Chain<A, Chain<B, Nobody>>,
    resolved: Resolved,
    data: Seq<u8>,
    op: WriteOp,
    ctx: InteractionContext,
    tag: Tag,
    a: ReadAnswer,
    r: Result<(), Status>,
)
    requires
        resolved.cluster != A::ID,
        resolved.cluster != B::ID,
        before.answers(resolved, ctx, tag, a),
        Chain::writes(&before, &after, resolved, data, op, ctx, r),
    ensures
        a == Err::<Seq<u8>, Status>(Status::UnsupportedCluster),
        r == Err::<(), Status>(Status::UnsupportedCluster),
        after.first == before.first,
        after.rest.first == before.rest.first,
{
}

/// A path to an endpoint that a node does not have is never answered by another endpoint.
pub proof fn law_an_unknown_endpoint_is_not_supported<A: ClusterHandler, B: ClusterHandler>(
    node: Endpoints<Route<A, Endpoints<Route<B, Endpoints<Nowhere>>>>>,
    resolved: Resolved,
    ctx: InteractionContext,
    tag: Tag,
    a: ReadAnswer,
)
    requires
        resolved.endpoint != node.0.first.endpoint,
        resolved.endpoint != node.0.rest.0.first.endpoint,
        node.answers(resolved, ctx, tag, a),
    ensures
        a == Err::<Seq<u8>, Status>(Status::UnsupportedEndpoint),
{
}

} // verus!
