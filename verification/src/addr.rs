//! Deterministic address derivation. A seed list and a program namespace are
//! mapped to a 32-byte address that lies off the signature curve, so no
//! private key for it can exist; re-supplying the same seeds and nonce is the
//! only way to "sign" for it (the delegated proof).
use vstd::prelude::*;

use crate::errors::MyError;
use anchor_lang::solana_program::pubkey::Pubkey;

verus! {

/// A 32-byte account address: the plain-value stand-in for the host ledger's
/// public-key type.
#[derive(Debug, PartialEq, Eq)]
pub struct Address {
    pub bytes: Vec<u8>,
}

impl View for Address {
    type V = Seq<u8>;

    open spec fn view(&self) -> Seq<u8> {
        self.bytes@
    }
}

impl Address {
    /// A well-formed address holds exactly 32 bytes.
    pub open spec fn wf(&self) -> bool {
        self.bytes@.len() == 32
    }

    pub fn new(bytes: Vec<u8>) -> (r: Address)
        requires
            bytes@.len() == 32,
        ensures
            r@ == bytes@,
            r.wf(),
    {
        Address { bytes }
    }

    /// An explicit copy, so that contracts can speak of the copy's bytes.
    pub fn clone_addr(&self) -> (r: Address)
        ensures
            r@ == self@,
    {
        let mut v: Vec<u8> = Vec::new();
        let mut i: usize = 0;
        while i < self.bytes.len()
            invariant
                i <= self.bytes@.len(),
                v@ == self.bytes@.subrange(0, i as int),
            decreases self.bytes@.len() - i,
        {
            v.push(self.bytes[i]);
            i += 1;
        }
        proof {
            assert(v@ =~= self.bytes@);
        }
        Address { bytes: v }
    }

    /// Byte-for-byte equality of two addresses.
    pub fn eq_addr(&self, other: &Address) -> (r: bool)
        ensures
            r == (self@ == other@),
    {
        if self.bytes.len() != other.bytes.len() {
            return false;
        }
        let mut i: usize = 0;
        while i < self.bytes.len()
            invariant
                i <= self.bytes@.len(),
                self.bytes@.len() == other.bytes@.len(),
                forall|j: int| 0 <= j < i ==> self.bytes@[j] == other.bytes@[j],
            decreases self.bytes@.len() - i,
        {
            if self.bytes[i] != other.bytes[i] {
                return false;
            }
            i += 1;
        }
        proof {
            assert(self@ =~= other@);
        }
        true
    }
}

/// The byte sequences of a seed list.
pub open spec fn seeds_view(s: Seq<Vec<u8>>) -> Seq<Seq<u8>> {
    s.map_values(|v: Vec<u8>| v@)
}

/// The address and collision-avoidance nonce that the host's derivation
/// scheme assigns to a seed list within a program namespace, if any nonce in
/// range yields an address off the signature curve. A function of its
/// arguments alone.
pub uninterp spec fn find_derived(seeds: Seq<Seq<u8>>, program_id: Seq<u8>) -> Option<(Seq<u8>, u8)>;

/// The address the host's derivation scheme assigns to a seed list extended
/// with one given nonce byte, or nothing when the seeds are over the host's
/// limits or the result lands on the curve. A function of its arguments alone.
pub uninterp spec fn derived_with_nonce(seeds: Seq<Seq<u8>>, nonce: u8, program_id: Seq<u8>) -> Option<
    Seq<u8>,
>;

/// Relies on Pubkey::try_find_program_address of the host ledger's SDK: a
/// sha256-based search, downward from nonce 255, for an address off the
/// ed25519 curve. The result is a deterministic function of the seeds and the
/// program id alone; `None` comes only when the seeds are over the host's
/// limits or no nonce works. It never panics.
#[verifier::external_body]
fn try_find_program_address(seeds: &Vec<Vec<u8>>, program_id: &Address) -> (r: Option<
    (Address, u8),
>)
    requires
        program_id.wf(),
    ensures
        r is Some <==> find_derived(seeds_view(seeds@), program_id@) is Some,
        (r matches Some(p) ==> {
            &&& find_derived(seeds_view(seeds@), program_id@) == Some((p.0@, p.1))
            &&& derived_with_nonce(seeds_view(seeds@), p.1, program_id@) == Some(p.0@)
            &&& p.0.wf()
        }),
{
    let s: Vec<&[u8]> = seeds.iter().map(|v| v.as_slice()).collect();
    let pid = Pubkey::new_from_array(program_id.bytes.as_slice().try_into().unwrap());
    Pubkey::try_find_program_address(&s, &pid).map(
        |p: (Pubkey, u8)| (Address { bytes: p.0.to_bytes().to_vec() }, p.1),
    )
}

/// Relies on Pubkey::create_program_address of the host ledger's SDK: the
/// sha256 re-derivation for a seed list plus one trailing nonce byte. The
/// result is a deterministic function of the seeds, the nonce and the program
/// id alone; it errors (never panics) when the seeds are over the host's
/// limits or the derived bytes land on the curve.
#[verifier::external_body]
fn create_with_nonce(seeds: &Vec<Vec<u8>>, nonce: u8, program_id: &Address) -> (r: Option<Address>)
    requires
        program_id.wf(),
    ensures
        r is Some <==> derived_with_nonce(seeds_view(seeds@), nonce, program_id@) is Some,
        (r matches Some(a) ==> derived_with_nonce(seeds_view(seeds@), nonce, program_id@) == Some(
            a@,
        ) && a.wf()),
{
    let mut s: Vec<&[u8]> = seeds.iter().map(|v| v.as_slice()).collect();
    let nonce_seed = [nonce];
    s.push(&nonce_seed);
    let pid = Pubkey::new_from_array(program_id.bytes.as_slice().try_into().unwrap());
    Pubkey::create_program_address(&s, &pid).ok().map(
        |pk: Pubkey| Address { bytes: pk.to_bytes().to_vec() },
    )
}

/// Derive the address for a seed list within a program namespace, with the
/// nonce that makes it fall off the signature curve. Deterministic: the same
/// seeds and namespace always yield the same address.
pub fn derive_address(seeds: &Vec<Vec<u8>>, program_id: &Address) -> (r: Result<
    (Address, u8),
    MyError,
>)
    requires
        program_id.wf(),
    ensures
        (r matches Ok(p) ==> {
            &&& find_derived(seeds_view(seeds@), program_id@) == Some((p.0@, p.1))
            &&& derived_with_nonce(seeds_view(seeds@), p.1, program_id@) == Some(p.0@)
            &&& p.0.wf()
        }),
        (r is Err ==> r == Result::<(Address, u8), MyError>::Err(MyError::DerivationExhausted)
            && find_derived(seeds_view(seeds@), program_id@) is None),
{
    match try_find_program_address(seeds, program_id) {
        Some(p) => Ok(p),
        None => Err(MyError::DerivationExhausted),
    }
}

/// Seed-and-nonce evidence standing in for a live signature from a derived
/// address, valid only for the call it is built in.
pub struct DelegatedProof {
    pub seeds: Vec<Vec<u8>>,
    pub nonce: u8,
}

/// Whether a seed list and nonce re-derive exactly `expected` within
/// `program_id`'s namespace.
pub open spec fn proof_valid(
    seeds: Seq<Seq<u8>>,
    nonce: u8,
    expected: Seq<u8>,
    program_id: Seq<u8>,
) -> bool {
    derived_with_nonce(seeds, nonce, program_id) == Some(expected)
}

/// Check a delegated proof against the address it claims to sign for.
pub fn validate_delegated_proof(proof: &DelegatedProof, expected: &Address, program_id: &Address) -> (r:
    bool)
    requires
        program_id.wf(),
    ensures
        r == proof_valid(seeds_view(proof.seeds@), proof.nonce, expected@, program_id@),
{
    match create_with_nonce(&proof.seeds, proof.nonce, program_id) {
        Some(a) => a.eq_addr(expected),
        None => false,
    }
}

} // verus!
