//! A MobX-style reactivity runtime: observables, derivations (computed values and
//! reactions), actions with strict-mode enforcement, and spy diagnostics.
pub mod action;
pub mod computed;
pub mod derivation;
pub mod ffi;
pub mod fmt;
pub mod host;
pub mod ids;
pub mod observable;
pub mod reaction;
pub mod registry;
pub mod runtime;
pub mod spy;
