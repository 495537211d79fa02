//! The embedding a runtime runs in: the side that owns the user's closures
//! (reaction effects, computed getters, spy listeners) and runs them when the
//! runtime asks.
use crate::ids::{DerivationId, ObservableId, ReactionId};
use crate::runtime::MobxRuntime;
use crate::spy::SpyEvent;
use vstd::prelude::*;

verus! {

/// What the runtime needs from its embedding. The runtime decides when each
/// method is called; the host only carries out the user's code.
pub trait Host {
    /// A reaction's effect, as the host stores it.
    type Effect;

    /// A spy listener, as the host stores it.
    type Listener;

    /// Stores the effect of a newly created reaction.
    fn adopt_reaction_effect(&self, reaction: ReactionId, effect: Self::Effect);

    /// Stores a newly registered spy listener.
    fn adopt_spy_listener(&self, listener: u64, callback: Self::Listener);

    /// Forgets a spy listener that was unregistered.
    fn release_spy_listener(&self, listener: u64);

    /// Runs a reaction's effect. The effect may use the runtime.
    fn run_reaction_effect(&self, rt: &mut MobxRuntime, reaction: ReactionId);

    /// Runs a computed value's getter, stores the result, and returns whether
    /// it differs from the previously stored value (always `true` when there
    /// was none). The getter may use the runtime.
    fn evaluate_computed(&self, rt: &mut MobxRuntime, computed: DerivationId) -> bool;

    /// Drops the stored value of a suspended computed value.
    fn discard_computed_value(&self, computed: DerivationId);

    /// Tells the host that an observable became observed (`true`) or
    /// unobserved (`false`).
    fn observation_changed(&self, observable: ObservableId, observed: bool);

    /// Hands a spy event to one listener.
    fn deliver_spy_event(&self, listener: u64, event: &SpyEvent);

    /// Reports a strict-mode warning to the user.
    fn report_strict_mode_warning(&self, message: &str);
}

} // verus!
