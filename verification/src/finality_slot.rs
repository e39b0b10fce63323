//! Per-source bounded storage of finality proofs.
//!
//! Each source stores between zero and two finality proofs that have not been
//! verified yet. If more than two proofs are received from the same source,
//! only the one with the lowest target block and the one with the highest
//! target block are kept: the highest target gives the fastest progress, and
//! keeping the lowest target guarantees that *some* progress can be made even
//! if the higher proofs turn out to be malicious. This bounds the memory
//! allocated per source.

use vstd::prelude::*;

verus! {

/// A batch of finality proofs sharing one target height, as received.
///
/// A justification is tagged by a four-byte consensus-engine identifier; the
/// proof bodies themselves are opaque blobs validated externally.
pub enum FinalityProofs {
    /// A GRANDPA commit message, as an opaque blob.
    GrandpaCommit(Vec<u8>),
    /// One or more justifications, each `(consensus engine id, proof)`.
    Justifications(Vec<(Vec<u8>, Vec<u8>)>),
}

/// A single finality proof handed out for verification.
pub enum FinalityProof {
    /// A GRANDPA commit message, as an opaque blob.
    GrandpaCommit(Vec<u8>),
    /// A single justification: `(consensus engine id, proof)`.
    Justification((Vec<u8>, Vec<u8>)),
}

/// The bounded finality-proof slot of one source: zero, one or two entries.
pub enum SourcePendingJustificationProofs {
    /// No proof is stored.
    Empty,
    /// Exactly one proof batch is stored.
    One { target_height: u64, proof: FinalityProofs },
    /// Two proof batches are stored; `low_target_height < high_target_height`.
    Two {
        low_target_height: u64,
        low_proof: FinalityProofs,
        high_target_height: u64,
        high_proof: FinalityProofs,
    },
}

/// An empty list of justifications is an invalid state.
pub open spec fn proofs_wf(p: FinalityProofs) -> bool {
    match p {
        FinalityProofs::GrandpaCommit(_) => true,
        FinalityProofs::Justifications(list) => list.len() > 0,
    }
}

/// What [`SourcePendingJustificationProofs::insert`] does, at the spec level:
/// the "keep extremes" policy.
pub open spec fn spec_insert(
    s: SourcePendingJustificationProofs,
    new_target_height: u64,
    new_proof: FinalityProofs,
) -> SourcePendingJustificationProofs {
    match s {
        SourcePendingJustificationProofs::Empty => SourcePendingJustificationProofs::One {
            target_height: new_target_height,
            proof: new_proof,
        },
        SourcePendingJustificationProofs::One { target_height, proof } => {
            if target_height < new_target_height {
                SourcePendingJustificationProofs::Two {
                    low_target_height: target_height,
                    low_proof: proof,
                    high_target_height: new_target_height,
                    high_proof: new_proof,
                }
            } else if target_height > new_target_height {
                SourcePendingJustificationProofs::Two {
                    low_target_height: new_target_height,
                    low_proof: new_proof,
                    high_target_height: target_height,
                    high_proof: proof,
                }
            } else {
                SourcePendingJustificationProofs::One {
                    target_height: new_target_height,
                    proof: new_proof,
                }
            }
        },
        SourcePendingJustificationProofs::Two {
            low_target_height,
            low_proof,
            high_target_height,
            high_proof,
        } => {
            if new_target_height >= high_target_height {
                SourcePendingJustificationProofs::Two {
                    low_target_height,
                    low_proof,
                    high_target_height: new_target_height,
                    high_proof: new_proof,
                }
            } else if new_target_height <= low_target_height {
                SourcePendingJustificationProofs::Two {
                    low_target_height: new_target_height,
                    low_proof: new_proof,
                    high_target_height,
                    high_proof,
                }
            } else {
                SourcePendingJustificationProofs::Two {
                    low_target_height,
                    low_proof,
                    high_target_height,
                    high_proof,
                }
            }
        },
    }
}

/// What [`SourcePendingJustificationProofs::merge`] does, at the spec
/// level: every batch of `other` is inserted into `s`, highest first.
pub open spec fn spec_merge(
    s: SourcePendingJustificationProofs,
    other: SourcePendingJustificationProofs,
) -> SourcePendingJustificationProofs {
    match other {
        SourcePendingJustificationProofs::Empty => s,
        SourcePendingJustificationProofs::One { target_height, proof } => spec_insert(
            s,
            target_height,
            proof,
        ),
        SourcePendingJustificationProofs::Two {
            low_target_height,
            low_proof,
            high_target_height,
            high_proof,
        } => spec_insert(
            spec_insert(s, high_target_height, high_proof),
            low_target_height,
            low_proof,
        ),
    }
}

impl SourcePendingJustificationProofs {
    /// The slot holds at most two proof batches, the low target strictly below
    /// the high one, and no batch is an empty justification list.
    pub open spec fn wf(self) -> bool {
        match self {
            SourcePendingJustificationProofs::Empty => true,
            SourcePendingJustificationProofs::One { proof, .. } => proofs_wf(proof),
            SourcePendingJustificationProofs::Two {
                low_target_height,
                low_proof,
                high_target_height,
                high_proof,
            } => low_target_height < high_target_height && proofs_wf(low_proof) && proofs_wf(
                high_proof,
            ),
        }
    }

    /// Number of proof batches stored.
    pub open spec fn count(self) -> nat {
        match self {
            SourcePendingJustificationProofs::Empty => 0,
            SourcePendingJustificationProofs::One { .. } => 1,
            SourcePendingJustificationProofs::Two { .. } => 2,
        }
    }

    /// True if no proof is stored.
    pub fn is_none(&self) -> (r: bool)
        ensures
            r == (self.count() == 0),
    {
        matches!(self, SourcePendingJustificationProofs::Empty)
    }

    /// Stores a new proof batch, keeping at most two: the ones with the
    /// lowest and the highest target heights seen so far.
    pub fn insert(&mut self, new_target_height: u64, new_proof: FinalityProofs)
        requires
            old(self).wf(),
            proofs_wf(new_proof),
        ensures
            *final(self) == spec_insert(*old(self), new_target_height, new_proof),
            final(self).wf(),
            final(self).count() >= 1,
    {
        let mut current = SourcePendingJustificationProofs::Empty;
        core::mem::swap(self, &mut current);
        match current {
            SourcePendingJustificationProofs::Empty => {
                *self = SourcePendingJustificationProofs::One {
                    target_height: new_target_height,
                    proof: new_proof,
                };
            },
            SourcePendingJustificationProofs::One { target_height, proof } => {
                if target_height < new_target_height {
                    *self = SourcePendingJustificationProofs::Two {
                        low_target_height: target_height,
                        low_proof: proof,
                        high_target_height: new_target_height,
                        high_proof: new_proof,
                    };
                } else if target_height > new_target_height {
                    *self = SourcePendingJustificationProofs::Two {
                        low_target_height: new_target_height,
                        low_proof: new_proof,
                        high_target_height: target_height,
                        high_proof: proof,
                    };
                } else {
                    *self = SourcePendingJustificationProofs::One {
                        target_height: new_target_height,
                        proof: new_proof,
                    };
                }
            },
            SourcePendingJustificationProofs::Two {
                low_target_height,
                low_proof,
                high_target_height,
                high_proof,
            } => {
                if new_target_height >= high_target_height {
                    *self = SourcePendingJustificationProofs::Two {
                        low_target_height,
                        low_proof,
                        high_target_height: new_target_height,
                        high_proof: new_proof,
                    };
                } else if new_target_height <= low_target_height {
                    *self = SourcePendingJustificationProofs::Two {
                        low_target_height: new_target_height,
                        low_proof: new_proof,
                        high_target_height,
                        high_proof,
                    };
                } else {
                    *self = SourcePendingJustificationProofs::Two {
                        low_target_height,
                        low_proof,
                        high_target_height,
                        high_proof,
                    };
                }
            },
        }
    }

    /// Takes one proof out of the slot, highest target first.
    ///
    /// A commit is handed out whole; justifications inside a batch are popped
    /// one at a time, the batch's remainder staying in place.
    pub fn take_one(&mut self) -> (r: Option<FinalityProof>)
        requires
            old(self).wf(),
        ensures
            final(self).wf(),
            r is Some <==> old(self).count() >= 1,
            final(self).count() <= old(self).count(),
            old(self).count() >= 1 ==> final(self).count() < 2 || ((*final(self)) is Two
                && (*old(self)) is Two),
            match *old(self) {
                SourcePendingJustificationProofs::Empty => {
                    &&& r is None
                    &&& *final(self) == *old(self)
                },
                SourcePendingJustificationProofs::One { target_height, proof: stored } => match stored {
                    FinalityProofs::GrandpaCommit(c) => {
                        &&& r == Some(FinalityProof::GrandpaCommit(c))
                        &&& *final(self) == SourcePendingJustificationProofs::Empty
                    },
                    FinalityProofs::Justifications(list) => {
                        &&& r == Some(FinalityProof::Justification(list@.last()))
                        &&& if list.len() == 1 {
                            *final(self) == SourcePendingJustificationProofs::Empty
                        } else {
                            (*final(self)) matches SourcePendingJustificationProofs::One {
                                target_height: t,
                                proof: FinalityProofs::Justifications(rest),
                            } && t == target_height && rest@ == list@.drop_last()
                        }
                    },
                },
                SourcePendingJustificationProofs::Two {
                    low_target_height,
                    low_proof,
                    high_target_height,
                    high_proof: stored,
                } => match stored {
                    FinalityProofs::GrandpaCommit(c) => {
                        &&& r == Some(FinalityProof::GrandpaCommit(c))
                        &&& *final(self) == (SourcePendingJustificationProofs::One {
                            target_height: low_target_height,
                            proof: low_proof,
                        })
                    },
                    FinalityProofs::Justifications(list) => {
                        &&& r == Some(FinalityProof::Justification(list@.last()))
                        &&& if list.len() == 1 {
                            *final(self) == (SourcePendingJustificationProofs::One {
                                target_height: low_target_height,
                                proof: low_proof,
                            })
                        } else {
                            (*final(self)) matches SourcePendingJustificationProofs::Two {
                                low_target_height: l,
                                low_proof: lp,
                                high_target_height: h,
                                high_proof: FinalityProofs::Justifications(rest),
                            } && l == low_target_height && lp == low_proof && h
                                == high_target_height && rest@ == list@.drop_last()
                        }
                    },
                },
            },
    {
        let mut current = SourcePendingJustificationProofs::Empty;
        core::mem::swap(self, &mut current);
        match current {
            SourcePendingJustificationProofs::Empty => {
                *self = SourcePendingJustificationProofs::Empty;
                None
            },
            SourcePendingJustificationProofs::One {
                target_height: _,
                proof: FinalityProofs::GrandpaCommit(commit),
            } => {
                *self = SourcePendingJustificationProofs::Empty;
                Some(FinalityProof::GrandpaCommit(commit))
            },
            SourcePendingJustificationProofs::One {
                target_height,
                proof: FinalityProofs::Justifications(mut justifications),
            } => {
                let j = justifications.pop().unwrap();
                if justifications.len() == 0 {
                    *self = SourcePendingJustificationProofs::Empty;
                } else {
                    *self = SourcePendingJustificationProofs::One {
                        target_height,
                        proof: FinalityProofs::Justifications(justifications),
                    };
                }
                Some(FinalityProof::Justification(j))
            },
            SourcePendingJustificationProofs::Two {
                low_target_height,
                low_proof,
                high_target_height: _,
                high_proof: FinalityProofs::GrandpaCommit(commit),
            } => {
                *self = SourcePendingJustificationProofs::One {
                    target_height: low_target_height,
                    proof: low_proof,
                };
                Some(FinalityProof::GrandpaCommit(commit))
            },
            SourcePendingJustificationProofs::Two {
                low_target_height,
                low_proof,
                high_target_height,
                high_proof: FinalityProofs::Justifications(mut justifications),
            } => {
                let j = justifications.pop().unwrap();
                if justifications.len() == 0 {
                    *self = SourcePendingJustificationProofs::One {
                        target_height: low_target_height,
                        proof: low_proof,
                    };
                } else {
                    *self = SourcePendingJustificationProofs::Two {
                        low_target_height,
                        low_proof,
                        high_target_height,
                        high_proof: FinalityProofs::Justifications(justifications),
                    };
                }
                Some(FinalityProof::Justification(j))
            },
        }
    }

    /// Inserts every proof batch of `other` into `self`, highest first.
    pub fn merge(&mut self, other: SourcePendingJustificationProofs)
        requires
            old(self).wf(),
            other.wf(),
        ensures
            final(self).wf(),
            *final(self) == spec_merge(*old(self), other),
    {
        match other {
            SourcePendingJustificationProofs::Empty => {},
            SourcePendingJustificationProofs::One { target_height, proof } => {
                self.insert(target_height, proof);
            },
            SourcePendingJustificationProofs::Two {
                low_target_height,
                low_proof,
                high_target_height,
                high_proof,
            } => {
                self.insert(high_target_height, high_proof);
                self.insert(low_target_height, low_proof);
            },
        }
    }
}

/// A well-formed finality-proof slot holds zero, one or two proof batches,
/// and when it holds two, the low target height is strictly below the high
/// one. This holds of every slot the engines store, since every operation on
/// the slot preserves well-formedness.
pub proof fn lemma_slot_bounded(s: SourcePendingJustificationProofs)
    requires
        s.wf(),
    ensures
        s.count() <= 2,
        s matches SourcePendingJustificationProofs::Two {
            low_target_height,
            high_target_height,
            ..
        } ==> low_target_height < high_target_height,
{
}

} // verus!
