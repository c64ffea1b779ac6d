//! Highlighting injection: embedded code (test fixtures and doc-test examples)
//! is copied into a synthetic document whose highlights are mapped back to
//! the original. Also the `impl Trait` to generic parameter assist and the
//! definition-map view.
pub mod text_range;
pub mod injector;
pub mod fixture;
pub mod fence;
pub mod doctest;
pub mod assist;
pub mod highlight;
pub mod def_map;
