//! The BABE configuration of a chain, as decoded from the output of the
//! genesis runtime's configuration call.
//!
//! The runtime virtual machine runs externally; what reaches the library is
//! the output blob, decoded here: four little-endian 64-bit words (slot
//! duration, slots per epoch, and the two halves of the slot-claim
//! fraction), a compact-length-prefixed list of authorities of thirty-two
//! byte public key and 64-bit weight each, thirty-two bytes of randomness,
//! and one allowed-slots tag byte.

use vstd::prelude::*;

verus! {

/// One authority allowed to author blocks in the first epoch.
pub struct BabeAuthority {
    /// The authority's public key; thirty-two bytes.
    pub public_key: Vec<u8>,
    /// Relative weight of the authority.
    pub weight: u64,
}

/// Which kinds of slot claims the chain accepts.
#[derive(Debug, Clone, Copy, PartialEq, Eq, Structural)]
pub enum BabeAllowedSlots {
    /// Only primary slot claims.
    PrimarySlots,
    /// Primary and secondary plain slot claims.
    PrimaryAndSecondaryPlainSlots,
    /// Primary and secondary VRF slot claims.
    PrimaryAndSecondaryVrfSlots,
}

/// BABE configuration of a chain, as extracted from the genesis block.
pub struct BabeGenesisConfiguration {
    /// Number of slots per epoch; never zero.
    pub slots_per_epoch: u64,
    /// Numerator and denominator of the fraction of slots that can be
    /// claimed.
    pub c: (u64, u64),
    /// Which kinds of slot claims the chain accepts.
    pub allowed_slots: BabeAllowedSlots,
    /// Randomness of the first epoch; thirty-two bytes.
    pub randomness: Vec<u8>,
    /// Authorities of the first epoch.
    pub authorities: Vec<BabeAuthority>,
}

/// Why starting the virtual machine failed, as its host reports it.
#[derive(Debug, Clone, Copy, PartialEq, Eq, Structural)]
pub enum VmStartError {
    /// The configuration entry point does not exist in the runtime.
    FunctionNotFound,
    /// The configuration entry point exists but is not a function.
    NotAFunction,
    /// Any other reason.
    Other,
}

/// Error when retrieving the BABE configuration.
#[derive(Debug, Clone, Copy, PartialEq, Eq, Structural)]
pub enum FromVmPrototypeError {
    /// The virtual machine could not start.
    VmStart(VmStartError),
    /// The virtual machine crashed while running.
    Trapped,
    /// The runtime called a host function that is not allowed during
    /// genesis introspection.
    HostFunctionNotAllowed,
    /// The output of the call could not be decoded.
    OutputDecode,
}

impl FromVmPrototypeError {
    /// True when the error means the runtime has no configuration entry
    /// point at all, as opposed to one that misbehaved.
    pub fn is_function_not_found(&self) -> (r: bool)
        ensures
            r == (*self == FromVmPrototypeError::VmStart(VmStartError::FunctionNotFound) || *self
                == FromVmPrototypeError::VmStart(VmStartError::NotAFunction)),
    {
        matches!(
            self,
            FromVmPrototypeError::VmStart(
                VmStartError::FunctionNotFound | VmStartError::NotAFunction,
            )
        )
    }
}

/// The 64-bit little-endian word at offset `i`.
pub open spec fn spec_le_u64_at(s: Seq<u8>, i: int) -> int {
    s[i] + s[i + 1] * 0x100 + s[i + 2] * 0x10000 + s[i + 3] * 0x1000000 + s[i + 4] * 0x100000000
        + s[i + 5] * 0x10000000000 + s[i + 6] * 0x1000000000000 + s[i + 7] * 0x100000000000000
}

/// Reads the 64-bit little-endian word at offset `i`.
fn read_le_u64(bytes: &Vec<u8>, i: usize) -> (r: u64)
    requires
        i + 8 <= bytes@.len(),
    ensures
        r == spec_le_u64_at(bytes@, i as int),
{
    let n = bytes.len();
    proof {
        assert(i + 8 <= n);
    }
    let b0 = bytes[i] as u64;
    let b1 = bytes[i + 1] as u64;
    let b2 = bytes[i + 2] as u64;
    let b3 = bytes[i + 3] as u64;
    let b4 = bytes[i + 4] as u64;
    let b5 = bytes[i + 5] as u64;
    let b6 = bytes[i + 6] as u64;
    let b7 = bytes[i + 7] as u64;
    b0 + b1 * 0x100 + b2 * 0x10000 + b3 * 0x1000000 + b4 * 0x100000000 + b5 * 0x10000000000 + b6
        * 0x1000000000000 + b7 * 0x100000000000000
}

/// Value and end position of the SCALE compact length at `pos`, for the
/// forms that fit in four bytes; `None` when the bytes run short or the
/// big-integer form is used.
pub open spec fn spec_compact_len(bytes: Seq<u8>, pos: int) -> Option<(int, int)> {
    if pos >= bytes.len() {
        Option::None
    } else {
        let tag = bytes[pos];
        if tag % 4 == 0 {
            Option::Some(((tag / 4) as int, pos + 1))
        } else if tag % 4 == 1 {
            if pos + 2 <= bytes.len() {
                Option::Some(((tag + bytes[pos + 1] * 0x100) / 4, pos + 2))
            } else {
                Option::None
            }
        } else if tag % 4 == 2 {
            if pos + 4 <= bytes.len() {
                Option::Some(
                    (
                        (tag + bytes[pos + 1] * 0x100 + bytes[pos + 2] * 0x10000 + bytes[pos + 3]
                            * 0x1000000) / 4,
                        pos + 4,
                    ),
                )
            } else {
                Option::None
            }
        } else {
            Option::None
        }
    }
}

/// The output of the genesis configuration call is well formed: the four
/// leading words, a compact-length-prefixed authorities list of forty bytes
/// each, thirty-two bytes of randomness and a final allowed-slots tag of
/// at most two, consumed exactly.
pub open spec fn spec_genesis_output_ok(bytes: Seq<u8>) -> bool {
    &&& bytes.len() >= 33
    &&& spec_le_u64_at(bytes, 8) != 0
    &&& spec_compact_len(bytes, 32) is Some
    &&& ({
        let (n, p) = spec_compact_len(bytes, 32).unwrap();
        &&& p + 40 * n + 33 == bytes.len()
        &&& bytes[bytes.len() - 1] <= 2
    })
}

/// Decodes the output of the genesis configuration call. Errors with
/// [`FromVmPrototypeError::OutputDecode`] exactly when the bytes are not a
/// well-formed output.
#[verifier::rlimit(100)]
#[verifier::spinoff_prover]
pub fn decode_genesis_config(bytes: &Vec<u8>) -> (r: Result<
    BabeGenesisConfiguration,
    FromVmPrototypeError,
>)
    ensures
        (r is Ok) == spec_genesis_output_ok(bytes@),
        r matches Result::Err(e) ==> e == FromVmPrototypeError::OutputDecode,
        r matches Result::Ok(cfg) ==> ({
            let (n, p) = spec_compact_len(bytes@, 32).unwrap();
            &&& cfg.slots_per_epoch != 0
            &&& cfg.slots_per_epoch == spec_le_u64_at(bytes@, 8)
            &&& cfg.c.0 == spec_le_u64_at(bytes@, 16)
            &&& cfg.c.1 == spec_le_u64_at(bytes@, 24)
            &&& cfg.authorities@.len() == n
            &&& (forall|a: int|
                0 <= a < n ==> (#[trigger] cfg.authorities@[a]).public_key@ == bytes@.subrange(
                    p + 40 * a,
                    p + 40 * a + 32,
                ) && cfg.authorities@[a].weight == spec_le_u64_at(bytes@, p + 40 * a + 32))
            &&& cfg.randomness@ == bytes@.subrange(p + 40 * n, p + 40 * n + 32)
            &&& cfg.allowed_slots == (if bytes@[bytes@.len() - 1] == 0 {
                BabeAllowedSlots::PrimarySlots
            } else if bytes@[bytes@.len() - 1] == 1 {
                BabeAllowedSlots::PrimaryAndSecondaryPlainSlots
            } else {
                BabeAllowedSlots::PrimaryAndSecondaryVrfSlots
            })
        }),
{
    if bytes.len() < 33 {
        return Result::Err(FromVmPrototypeError::OutputDecode);
    }
    // the slot duration at offset zero is read and ignored: it cannot be
    // changed after genesis anyway
    let slots_per_epoch = read_le_u64(bytes, 8);
    if slots_per_epoch == 0 {
        return Result::Err(FromVmPrototypeError::OutputDecode);
    }
    let c0 = read_le_u64(bytes, 16);
    let c1 = read_le_u64(bytes, 24);
    let mut pos: usize = 32;
    // SCALE compact length of the authorities list
    let tag = bytes[pos];
    let num_authorities: u64;
    if tag % 4 == 0 {
        num_authorities = (tag / 4) as u64;
        pos = pos + 1;
    } else if tag % 4 == 1 {
        if pos + 2 > bytes.len() {
            return Result::Err(FromVmPrototypeError::OutputDecode);
        }
        num_authorities = ((tag as u64) + (bytes[pos + 1] as u64) * 0x100) / 4;
        pos = pos + 2;
    } else if tag % 4 == 2 {
        if pos + 4 > bytes.len() {
            return Result::Err(FromVmPrototypeError::OutputDecode);
        }
        num_authorities = ((tag as u64) + (bytes[pos + 1] as u64) * 0x100 + (bytes[pos
            + 2] as u64) * 0x10000 + (bytes[pos + 3] as u64) * 0x1000000) / 4;
        pos = pos + 4;
    } else {
        // a list of authorities long enough to need the big-integer compact
        // form cannot fit in a call output
        return Result::Err(FromVmPrototypeError::OutputDecode);
    }
    let ghost p0 = pos as int;
    proof {
        assert(spec_compact_len(bytes@, 32) == Option::Some((num_authorities as int, p0)));
    }
    let mut authorities: Vec<BabeAuthority> = Vec::new();
    while (authorities.len() as u64) < num_authorities
        invariant
            authorities@.len() <= num_authorities,
            32 <= p0 <= pos,
            pos == p0 + 40 * authorities@.len(),
            pos <= bytes@.len(),
            bytes@.len() <= usize::MAX,
            spec_compact_len(bytes@, 32) == Option::Some((num_authorities as int, p0)),
            forall|x: int|
                0 <= x < authorities@.len() ==> (#[trigger] authorities@[x]).public_key@
                    == bytes@.subrange(p0 + 40 * x, p0 + 40 * x + 32) && authorities@[x].weight
                    == spec_le_u64_at(bytes@, p0 + 40 * x + 32),
        decreases num_authorities - authorities@.len(),
    {
        let n = bytes.len();
        if pos >= n || n - pos < 40 {
            proof {
                assert(p0 + 40 * (num_authorities as int) + 33 > bytes@.len());
            }
            return Result::Err(FromVmPrototypeError::OutputDecode);
        }
        proof {
            assert(pos + 40 <= n);
        }
        let mut public_key: Vec<u8> = Vec::new();
        let mut k: usize = 0;
        while k < 32
            invariant
                k <= 32,
                public_key@ == bytes@.subrange(pos as int, pos + k),
                pos + 40 <= bytes@.len(),
                bytes@.len() <= usize::MAX,
            decreases 32 - k,
        {
            public_key.push(bytes[pos + k]);
            proof {
                assert(public_key@ =~= bytes@.subrange(pos as int, pos + k + 1));
            }
            k = k + 1;
        }
        let weight = read_le_u64(bytes, pos + 32);
        authorities.push(BabeAuthority { public_key, weight });
        pos = pos + 40;
    }
    let ghost n_auth = num_authorities as int;
    proof {
        assert(pos == p0 + 40 * n_auth);
    }
    let n = bytes.len();
    if pos >= n || n - pos < 33 {
        proof {
            assert(p0 + 40 * n_auth + 33 != bytes@.len());
        }
        return Result::Err(FromVmPrototypeError::OutputDecode);
    }
    proof {
        assert(pos + 33 <= n);
    }
    // the output must be consumed exactly
    if pos + 33 != bytes.len() {
        return Result::Err(FromVmPrototypeError::OutputDecode);
    }
    let mut randomness: Vec<u8> = Vec::new();
    let mut k: usize = 0;
    while k < 32
        invariant
            k <= 32,
            randomness@ == bytes@.subrange(pos as int, pos + k),
            pos + 33 <= bytes@.len(),
            bytes@.len() <= usize::MAX,
        decreases 32 - k,
    {
        randomness.push(bytes[pos + k]);
        proof {
            assert(randomness@ =~= bytes@.subrange(pos as int, pos + k + 1));
        }
        k = k + 1;
    }
    let allowed_slots = match bytes[pos + 32] {
        0 => BabeAllowedSlots::PrimarySlots,
        1 => BabeAllowedSlots::PrimaryAndSecondaryPlainSlots,
        2 => BabeAllowedSlots::PrimaryAndSecondaryVrfSlots,
        _ => {
            return Result::Err(FromVmPrototypeError::OutputDecode);
        },
    };
    Result::Ok(
        BabeGenesisConfiguration {
            slots_per_epoch,
            c: (c0, c1),
            allowed_slots,
            randomness,
            authorities,
        },
    )
}

} // verus!
