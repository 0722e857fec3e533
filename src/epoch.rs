use vstd::prelude::*;

use crate::error::{DurableCatalogError, FenceError, Violation};

verus! {

/// The smallest epoch a writer can hold.
pub const MIN_EPOCH: u64 = 1;

/// A writer generation that may have been superseded.
#[derive(Debug, Clone, Copy, PartialEq, Eq, Structural)]
pub enum FenceableEpoch {
    /// The current epoch, if one exists, has not been fenced.
    Unfenced(Option<u64>),
    /// The current epoch has been fenced by a strictly larger one.
    Fenced { current_epoch: u64, fence_epoch: u64 },
}

impl FenceableEpoch {
    /// The fence error that a fenced epoch reports.
    pub open spec fn fence_error(self) -> DurableCatalogError {
        match self {
            FenceableEpoch::Fenced { current_epoch, fence_epoch } => DurableCatalogError::Fence(
                FenceError::Epoch { current_epoch, fence_epoch },
            ),
            FenceableEpoch::Unfenced(_) => DurableCatalogError::NotWritable,
        }
    }

    pub open spec fn is_fenced(self) -> bool {
        self is Fenced
    }

    /// The epoch this handle holds, fenced or not.
    pub open spec fn spec_epoch(self) -> Option<u64> {
        match self {
            FenceableEpoch::Unfenced(e) => e,
            FenceableEpoch::Fenced { current_epoch, .. } => Some(current_epoch),
        }
    }

    /// Returns the current epoch if it is not fenced, otherwise the fence error.
    pub fn validate(&self) -> (r: Result<Option<u64>, DurableCatalogError>)
        ensures
            match *self {
                FenceableEpoch::Unfenced(e) => r == Ok::<Option<u64>, DurableCatalogError>(e),
                FenceableEpoch::Fenced { .. } => r == Err::<Option<u64>, DurableCatalogError>(
                    self.fence_error(),
                ),
            },
    {
        match self {
            FenceableEpoch::Unfenced(epoch) => Ok(*epoch),
            FenceableEpoch::Fenced { current_epoch, fence_epoch } => Err(
                DurableCatalogError::Fence(
                    FenceError::Epoch { current_epoch: *current_epoch, fence_epoch: *fence_epoch },
                ),
            ),
        }
    }

    /// Returns the current epoch, fenced or not.
    pub fn epoch(&self) -> (r: Option<u64>)
        ensures
            r == self.spec_epoch(),
    {
        match self {
            FenceableEpoch::Unfenced(epoch) => *epoch,
            FenceableEpoch::Fenced { current_epoch, .. } => Some(*current_epoch),
        }
    }

    /// The state after observing `epoch` in the log.
    pub open spec fn spec_observe(self, epoch: u64) -> FenceableEpoch {
        match self {
            FenceableEpoch::Unfenced(None) => FenceableEpoch::Unfenced(Some(epoch)),
            FenceableEpoch::Unfenced(Some(current)) => if epoch > current {
                FenceableEpoch::Fenced { current_epoch: current, fence_epoch: epoch }
            } else {
                self
            },
            FenceableEpoch::Fenced { .. } => self,
        }
    }

    /// Whether observing `epoch` would mean the epoch went backwards.
    pub open spec fn regresses(self, epoch: u64) -> bool {
        match self {
            FenceableEpoch::Unfenced(Some(current)) => epoch < current,
            _ => false,
        }
    }

    /// Observes `epoch` in the log: adopts it when none is held, fences this
    /// handle when it is larger than the held one, and reports a regression as a
    /// fatal violation.
    pub fn maybe_fence(&mut self, epoch: u64) -> (r: Result<(), DurableCatalogError>)
        ensures
            old(self).regresses(epoch) ==> {
                &&& r == Err::<(), DurableCatalogError>(
                    DurableCatalogError::Corrupt(
                        Violation::EpochRegressed {
                            current_epoch: old(self).spec_epoch().unwrap(),
                            observed_epoch: epoch,
                        },
                    ),
                )
                &&& *final(self) == *old(self)
            },
            !old(self).regresses(epoch) ==> {
                &&& *final(self) == old(self).spec_observe(epoch)
                &&& r is Ok <==> !final(self).is_fenced()
                &&& r is Err ==> r == Err::<(), DurableCatalogError>(final(self).fence_error())
            },
    {
        match *self {
            FenceableEpoch::Unfenced(Some(current_epoch)) => {
                if epoch > current_epoch {
                    *self = FenceableEpoch::Fenced { current_epoch, fence_epoch: epoch };
                    let v = self.validate();
                    match v {
                        Ok(_) => Ok(()),
                        Err(e) => Err(e),
                    }
                } else if epoch < current_epoch {
                    Err(
                        DurableCatalogError::Corrupt(
                            Violation::EpochRegressed { current_epoch, observed_epoch: epoch },
                        ),
                    )
                } else {
                    Ok(())
                }
            },
            FenceableEpoch::Unfenced(None) => {
                *self = FenceableEpoch::Unfenced(Some(epoch));
                Ok(())
            },
            FenceableEpoch::Fenced { .. } => {
                let v = self.validate();
                match v {
                    Ok(_) => Ok(()),
                    Err(e) => Err(e),
                }
            },
        }
    }
}

/// Fencing is one-way: once fenced, no observed epoch unfences the handle, and
/// every validation fails.
pub proof fn lemma_fencing_is_permanent(e: FenceableEpoch, observed: u64)
    requires
        e.is_fenced(),
    ensures
        e.spec_observe(observed).is_fenced(),
        !e.regresses(observed),
{
}

/// Fencing monotonicity: handles holding epochs `e1 < e2 < e3` are fenced in
/// turn, each as soon as it observes the next larger epoch, and stays fenced
/// after observing any later one.
pub proof fn lemma_fencing_monotonic(e1: u64, e2: u64, e3: u64)
    requires
        e1 < e2 < e3,
    ensures
        FenceableEpoch::Unfenced(Some(e1)).spec_observe(e2).is_fenced(),
        FenceableEpoch::Unfenced(Some(e1)).spec_observe(e2).spec_observe(e3).is_fenced(),
        FenceableEpoch::Unfenced(Some(e2)).spec_observe(e3).is_fenced(),
        !FenceableEpoch::Unfenced(Some(e3)).spec_observe(e3).is_fenced(),
        FenceableEpoch::Unfenced(Some(e1)).spec_observe(e2) == (FenceableEpoch::Fenced {
            current_epoch: e1,
            fence_epoch: e2,
        }),
{
}

} // verus!
