# greenhorn (verified core)

Greenhorn builds desktop and web applications whose state is synchronized
between a Rust backend and a web frontend at the level of the DOM. This crate
is its core, written in Verus and proved against its contracts.

Layout:

- `src/vdom.rs`, `src/diff.rs`, `src/render.rs`: the virtual DOM, render
  results with their components and blobs, the render cycle (a full render
  from the root, or a render of only the components that changed since the
  previous frame), and the diff that turns an old frame and a new render into
  a patch.
- `src/node.rs`, `src/node_builder.rs`: the nodes a render produces (elements,
  mounted components, text, blobs, event subscriptions), their builders, and
  their conversion into a virtual DOM and the listeners, subscriptions, blobs
  and rpc handlers they register.
- `src/state.rs`: the listeners and event subscriptions of the frame the
  frontend shows, and the translation of frontend node ids, against which
  messages from the frontend are matched.
- `src/serialize.rs`: the binary encoding of patches for the frontend.
- `src/frontend.rs`: what a patch does to the frontend's DOM and blobs, and
  the proofs that applying the diff's patch makes the frontend show the new
  render.
- `src/runtime.rs`: when the runtime renders, what it renders and which
  patch it sends, and the queue of dialogs, shown one after the other.
- `src/component.rs`, `src/event.rs`, `src/blob.rs`, `src/node_builder.rs`,
  `src/dialog/`, `src/components/`, `src/services/`, `src/web_view.rs`,
  `src/parser.rs`, `src/templating.rs`: the plain data types and builders
  applications use.
- `app/`: the JSON forms of the data types, the JSON form of dialogs, native
  system dialogs, displayable load errors, and the runtime loop that drives
  the library's decisions.
- `tests/`: tests of the library, including a simulated frontend that
  applies patches.
