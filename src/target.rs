use vstd::prelude::*;
use crate::error::HarnessError;

verus! {

/// A physical execution target of a backend, such as the host CPU or an
/// accelerator device.
pub struct Target {
    /// The backend's name for the target kind.
    pub name: String,
    /// Index of the device among those of its kind.
    pub ordinal: u32,
    /// Whether inputs live in device memory and must be copied there from
    /// the host before measurement.
    pub device_memory: bool,
}

/// The target selection of a session, as a model.
pub struct SelectorModel {
    pub selected: Option<Target>,
}

impl SelectorModel {
    /// Selection happens once: a second selection is a configuration error,
    /// and an unavailable target fails without any fallback. A failed
    /// selection leaves the state as it was.
    pub open spec fn select(self, target: Target, available: bool) -> (SelectorModel, Result<
        (),
        HarnessError,
    >) {
        if self.selected is Some {
            (self, Err(HarnessError::TargetAlreadySelected))
        } else if !available {
            (self, Err(HarnessError::BackendUnavailable))
        } else {
            (SelectorModel { selected: Some(target) }, Ok(()))
        }
    }

    /// Measurement may start only once a target is selected.
    pub open spec fn may_measure(self) -> bool {
        self.selected is Some
    }
}

/// Selecting a target that is not available, in a session where none was
/// selected yet, fails with `BackendUnavailable` and leaves the session
/// without a target, so no measurement may start on it; selecting again,
/// once a target is chosen, is a configuration error that keeps the first.
pub proof fn lemma_selection_fails_fast(s: SelectorModel, target: Target, available: bool)
    ensures
        s.selected is None ==> s.select(target, false) == (s, Err::<(), HarnessError>(
            HarnessError::BackendUnavailable,
        )),
        s.selected is None ==> !s.select(target, false).0.may_measure(),
        s.selected is Some ==> s.select(target, available) == (s, Err::<(), HarnessError>(
            HarnessError::TargetAlreadySelected,
        )),
        s.select(target, available).1 is Ok <==> s.selected is None && available,
{
}

/// Chooses the execution target once per session, before any benchmark.
pub struct Selector {
    selected: Option<Target>,
}

impl View for Selector {
    type V = SelectorModel;

    closed spec fn view(&self) -> SelectorModel {
        SelectorModel { selected: self.selected }
    }
}

impl Selector {
    /// A selector with no target chosen.
    pub fn new() -> (r: Selector)
        ensures
            r@.selected is None,
    {
        Selector { selected: None }
    }

    /// Selects `target`, whose availability the caller has probed. Fails
    /// with `TargetAlreadySelected` when a target was chosen before, else
    /// with `BackendUnavailable` when `available` is false.
    pub fn select(&mut self, target: Target, available: bool) -> (r: Result<(), HarnessError>)
        ensures
            (final(self)@, r) == old(self)@.select(target, available),
    {
        if self.selected.is_some() {
            return Err(HarnessError::TargetAlreadySelected);
        }
        if !available {
            return Err(HarnessError::BackendUnavailable);
        }
        self.selected = Some(target);
        Ok(())
    }

    /// The selected target, if any.
    pub fn selected(&self) -> (r: Option<&Target>)
        ensures
            r is None <==> self@.selected is None,
            r matches Some(t) ==> self@.selected == Some(*t),
    {
        self.selected.as_ref()
    }
}

} // verus!
