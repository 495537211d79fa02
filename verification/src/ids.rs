//! Identifier newtypes for the entities tracked by the runtime.
//!
//! Every identifier wraps a non-zero `u64`; zero is reserved as the "no entity"
//! value and can never name an observable, a derivation or a reaction.
use vstd::prelude::*;

verus! {

/// Raw access shared by the identifier newtypes, so that registries can issue
/// and store them uniformly.
pub trait RawId: Sized + Copy {
    /// The raw value the identifier wraps.
    spec fn spec_raw(&self) -> u64;

    /// Builds the identifier for a raw value, which must be non-zero.
    fn from_raw(raw: u64) -> (id: Self)
        requires
            raw != 0,
        ensures
            id.spec_raw() == raw,
    ;

    /// Returns the raw value of the identifier.
    fn raw(&self) -> (r: u64)
        ensures
            r == self.spec_raw(),
    ;
}

/// Error returned when a zero value is turned into an identifier.
#[derive(Clone, Copy, Debug, PartialEq, Eq, Structural)]
pub enum IdError {
    /// Identifier values must be non-zero.
    Zero,
}

impl IdError {
    /// The message the error carries: `ID values must be non-zero`.
    pub fn message(&self) -> (s: &'static str)
        ensures
            s@ == "ID values must be non-zero"@,
    {
        "ID values must be non-zero"
    }
}

/// Unique identifier for observable entities registered in the runtime.
#[derive(Clone, Copy, Debug, PartialEq, Eq, Structural, Hash, PartialOrd, Ord)]
pub struct ObservableId {
    pub(crate) value: u64,
}

impl ObservableId {
    #[verifier::type_invariant]
    spec fn non_zero(self) -> bool {
        self.value != 0
    }

    /// The raw value of the identifier.
    pub open(crate) spec fn id_value(self) -> u64 {
        self.value
    }

    /// Converts a raw value; zero is rejected.
    pub fn try_from_raw(raw: u64) -> (r: Result<Self, IdError>)
        ensures
            raw == 0 <==> r is Err,
            r matches Ok(id) ==> id.id_value() == raw,
    {
        if raw == 0 {
            Err(IdError::Zero)
        } else {
            Ok(ObservableId { value: raw })
        }
    }

    /// Returns the raw, non-zero value.
    pub fn get(&self) -> (r: u64)
        ensures
            r == self.id_value(),
            r != 0,
    {
        proof {
            use_type_invariant(self);
        }
        self.value
    }
}

impl RawId for ObservableId {
    open spec fn spec_raw(&self) -> u64 {
        self.id_value()
    }

    fn from_raw(raw: u64) -> (id: Self) {
        ObservableId { value: raw }
    }

    fn raw(&self) -> (r: u64) {
        self.get()
    }
}

/// Unique identifier for derivations (reactions or computed values).
#[derive(Clone, Copy, Debug, PartialEq, Eq, Structural, Hash, PartialOrd, Ord)]
pub struct DerivationId {
    pub(crate) value: u64,
}

impl DerivationId {
    #[verifier::type_invariant]
    spec fn non_zero(self) -> bool {
        self.value != 0
    }

    /// The raw value of the identifier.
    pub open(crate) spec fn id_value(self) -> u64 {
        self.value
    }

    /// Converts a raw value; zero is rejected.
    pub fn try_from_raw(raw: u64) -> (r: Result<Self, IdError>)
        ensures
            raw == 0 <==> r is Err,
            r matches Ok(id) ==> id.id_value() == raw,
    {
        if raw == 0 {
            Err(IdError::Zero)
        } else {
            Ok(DerivationId { value: raw })
        }
    }

    /// Returns the raw, non-zero value.
    pub fn get(&self) -> (r: u64)
        ensures
            r == self.id_value(),
            r != 0,
    {
        proof {
            use_type_invariant(self);
        }
        self.value
    }
}

impl RawId for DerivationId {
    open spec fn spec_raw(&self) -> u64 {
        self.id_value()
    }

    fn from_raw(raw: u64) -> (id: Self) {
        DerivationId { value: raw }
    }

    fn raw(&self) -> (r: u64) {
        self.get()
    }
}

/// Unique identifier for reaction handlers scheduled by the runtime.
#[derive(Clone, Copy, Debug, PartialEq, Eq, Structural, Hash, PartialOrd, Ord)]
pub struct ReactionId {
    pub(crate) value: u64,
}

impl ReactionId {
    #[verifier::type_invariant]
    spec fn non_zero(self) -> bool {
        self.value != 0
    }

    /// The raw value of the identifier.
    pub open(crate) spec fn id_value(self) -> u64 {
        self.value
    }

    /// Converts a raw value; zero is rejected.
    pub fn try_from_raw(raw: u64) -> (r: Result<Self, IdError>)
        ensures
            raw == 0 <==> r is Err,
            r matches Ok(id) ==> id.id_value() == raw,
    {
        if raw == 0 {
            Err(IdError::Zero)
        } else {
            Ok(ReactionId { value: raw })
        }
    }

    /// Returns the raw, non-zero value.
    pub fn get(&self) -> (r: u64)
        ensures
            r == self.id_value(),
            r != 0,
    {
        proof {
            use_type_invariant(self);
        }
        self.value
    }
}

impl RawId for ReactionId {
    open spec fn spec_raw(&self) -> u64 {
        self.id_value()
    }

    fn from_raw(raw: u64) -> (id: Self) {
        ReactionId { value: raw }
    }

    fn raw(&self) -> (r: u64) {
        self.get()
    }
}

} // verus!
