//! A compiler and runtime cache for a small CSS-like styling
//! language.
//!
//! The compiler parses style source text (`parser`, `selector`) into
//! an abstract syntax tree (`ast`), collects every classname
//! reference - however deeply nested inside at-rule bodies - and
//! assigns each distinct name a dense slot index in lexicographic
//! order (`table`, `order`).  A second walk assembles one format
//! template with escaped braces and an ordered parameter list
//! (`output`), which either renders directly against a slot base
//! (`render`, `compile`) or expands to host-language source code
//! (`codegen`).
//!
//! The runtime side (`provider`) registers compiled generators under
//! stable identities, runs each at most once, and replays all of
//! them, in registration order, when the active theme changes; the
//! backend's text always equals the concatenation of every
//! registered generator's output against the current theme.
//!
//! The laws the compiler obeys - determinism, slots as lexicographic
//! ranks, closure of collection under nesting - are stated and
//! proved in `laws`.

pub mod ast;
pub mod codegen;
pub mod compile;
pub mod laws;
pub mod order;
pub mod output;
pub mod parser;
pub mod provider;
pub mod render;
pub mod selector;
pub mod table;
