# matter_clusters

The device side of the clusters that a Matter node is made of: what they answer when an attribute is
read, what a write or a command changes and what it is answered, and what a node's lifecycle and the
clock do to them. Everything is executable Rust whose behaviour is stated in contracts and proved.

## Layout

- `src/clusters/` holds one module for each cluster; `dispatch`, which makes several clusters answer as
  one and routes between endpoints; and `sharing`, which puts clusters together that work on one state.
- `src/tlv.rs` is the encoding, `src/fields.rs` decodes a command's fields against a schema, and
  `src/walk.rs` reads structures field by field.
- `src/im.rs` has the interaction model's names and the `ClusterHandler` trait: each cluster gives the
  relations `answers`, `writes`, `invokes` and `outlives`, and its functions are proved to keep to them.
- `src/dm.rs` and `src/conformance.rs` describe clusters and derive a description from features and
  choices; `src/device.rs` holds an endpoint against a device type.
- `src/acl.rs`, `src/group.rs` and `src/commissioning.rs` are the state that clusters share: the access
  control list, the group keys, the fail-safe and the commissioning window.
- `src/bounded.rs` is storage of fixed capacity, over `heapless`.

## How it is stated

State and requests have mathematical models, and each step is a spec function from the state before to
the state after and the answer. Promises that hold over all inputs, over several calls or in every
state are public proof functions whose names begin with `law_`.

A product's part in a cluster is a trait of hooks. Contracts say with `call_ensures` what a hook is
asked and how its answer is used, and hold for every product. A hook that makes the product do something
is counted too, so that a contract also says when it is not called: either its own contract appends to a
record that the product keeps, or the cluster reaches the product only through a type that keeps one.
What has to hold before such a call is the hook's precondition.

Clusters own what they keep. Where more than one works on the same state, a handler in `sharing` owns it
once, lends it to the cluster that is addressed and takes it back: the region, the fail-safe and the
commissioning window, the group keys, and whether an endpoint is identifying itself. Such a handler
answers for its clusters and leaves every other cluster to what it is put over, so that they compose.

## What is trusted

`src/bounded.rs` declares `heapless::Vec` and `heapless::String` and states what their methods do;
`src/tlv.rs` states what `core::str::from_utf8` does. Nothing else is taken on trust.
