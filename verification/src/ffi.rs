//! The handle types of the C interface, and the decisions made on them:
//! which handles are valid, and which action policy a C policy stands for.
//! Handles are plain `u64` values; `0` is never a valid handle.
use crate::action::{enforce_of, ActionPolicy};
use crate::ids::RawId;
use crate::runtime::EnforcePolicy;
use vstd::prelude::*;

verus! {

/// The value no valid handle carries.
pub const INVALID_ID: u64 = 0;

/// The value of the one runtime handle.
pub const RUNTIME_ID: u64 = 1;

/// Runtime handle exported through the C interface.
#[allow(non_camel_case_types)]
#[derive(Debug, Copy, Clone, PartialEq, Eq, Structural)]
pub struct mobx_runtime_t {
    pub raw: u64,
}

/// Observable handle exported through the C interface.
#[allow(non_camel_case_types)]
#[derive(Debug, Copy, Clone, PartialEq, Eq, Structural)]
pub struct mobx_observable_t {
    pub raw: u64,
}

/// Reaction handle exported through the C interface.
#[allow(non_camel_case_types)]
#[derive(Debug, Copy, Clone, PartialEq, Eq, Structural)]
pub struct mobx_reaction_t {
    pub raw: u64,
}

/// Handle of a temporary "state changes allowed" override.
#[allow(non_camel_case_types)]
#[derive(Debug, Copy, Clone, PartialEq, Eq, Structural)]
pub struct mobx_state_guard_t {
    pub raw: u64,
}

/// Computed handle exported through the C interface.
#[allow(non_camel_case_types)]
#[derive(Debug, Copy, Clone, PartialEq, Eq, Structural)]
pub struct mobx_computed_t {
    pub raw: u64,
}

/// The action policies as the C interface names them.
#[derive(Debug, Copy, Clone, PartialEq, Eq, Structural)]
pub enum MobxActionPolicy {
    MobxActionNever,
    MobxActionObserved,
    MobxActionAlways,
}

/// The kinds of value that cross the C interface.
#[derive(Debug, Copy, Clone, PartialEq, Eq, Structural)]
pub enum MobxValueTag {
    Bool,
    I64,
    F64,
    String,
    Json,
}

impl mobx_runtime_t {
    /// Only the runtime handle `RUNTIME_ID` is valid.
    pub fn is_valid(&self) -> (r: bool)
        ensures
            r == (self.raw == RUNTIME_ID),
    {
        self.raw == RUNTIME_ID
    }
}

impl mobx_observable_t {
    /// Every handle but `INVALID_ID` is valid.
    pub fn is_valid(&self) -> (r: bool)
        ensures
            r == (self.raw != INVALID_ID),
    {
        self.raw != INVALID_ID
    }
}

impl mobx_reaction_t {
    /// Every handle but `INVALID_ID` is valid.
    pub fn is_valid(&self) -> (r: bool)
        ensures
            r == (self.raw != INVALID_ID),
    {
        self.raw != INVALID_ID
    }
}

impl mobx_state_guard_t {
    /// Every handle but `INVALID_ID` is valid.
    pub fn is_valid(&self) -> (r: bool)
        ensures
            r == (self.raw != INVALID_ID),
    {
        self.raw != INVALID_ID
    }
}

impl mobx_computed_t {
    /// Every handle but `INVALID_ID` is valid.
    pub fn is_valid(&self) -> (r: bool)
        ensures
            r == (self.raw != INVALID_ID),
    {
        self.raw != INVALID_ID
    }
}

/// The runtime handle itself when it is valid, the invalid handle otherwise.
pub fn runtime_handle_or_invalid(runtime: mobx_runtime_t) -> (r: mobx_runtime_t)
    ensures
        runtime.raw == RUNTIME_ID ==> r == runtime,
        runtime.raw != RUNTIME_ID ==> r.raw == INVALID_ID,
{
    if runtime.is_valid() {
        runtime
    } else {
        mobx_runtime_t { raw: INVALID_ID }
    }
}

/// The action policy a C policy stands for.
pub open spec fn policy_of(policy: MobxActionPolicy) -> ActionPolicy {
    match policy {
        MobxActionPolicy::MobxActionNever => ActionPolicy::Never,
        MobxActionPolicy::MobxActionObserved => ActionPolicy::Observed,
        MobxActionPolicy::MobxActionAlways => ActionPolicy::Always,
    }
}

impl MobxActionPolicy {
    /// The action policy this C policy stands for.
    pub fn to_action_policy(self) -> (p: ActionPolicy)
        ensures
            p == policy_of(self),
            enforce_of(p) == match self {
                MobxActionPolicy::MobxActionNever => EnforcePolicy::Never,
                MobxActionPolicy::MobxActionObserved => EnforcePolicy::Observed,
                MobxActionPolicy::MobxActionAlways => EnforcePolicy::Always,
            },
    {
        match self {
            MobxActionPolicy::MobxActionNever => ActionPolicy::Never,
            MobxActionPolicy::MobxActionObserved => ActionPolicy::Observed,
            MobxActionPolicy::MobxActionAlways => ActionPolicy::Always,
        }
    }
}

impl RawId for mobx_observable_t {
    open spec fn spec_raw(&self) -> u64 {
        self.raw
    }

    fn from_raw(raw: u64) -> (id: Self) {
        mobx_observable_t { raw }
    }

    fn raw(&self) -> (r: u64) {
        self.raw
    }
}

impl RawId for mobx_reaction_t {
    open spec fn spec_raw(&self) -> u64 {
        self.raw
    }

    fn from_raw(raw: u64) -> (id: Self) {
        mobx_reaction_t { raw }
    }

    fn raw(&self) -> (r: u64) {
        self.raw
    }
}

impl RawId for mobx_state_guard_t {
    open spec fn spec_raw(&self) -> u64 {
        self.raw
    }

    fn from_raw(raw: u64) -> (id: Self) {
        mobx_state_guard_t { raw }
    }

    fn raw(&self) -> (r: u64) {
        self.raw
    }
}

impl RawId for mobx_computed_t {
    open spec fn spec_raw(&self) -> u64 {
        self.raw
    }

    fn from_raw(raw: u64) -> (id: Self) {
        mobx_computed_t { raw }
    }

    fn raw(&self) -> (r: u64) {
        self.raw
    }
}

} // verus!
