//! Signed token assignments: a tier-aligned claim of one time slot by an
//! assignee public key, together with the canonical byte layout of the
//! message the generator signs, and the allocation criteria of a contract.

use vstd::prelude::*;
use crate::datetime::DateTimeUtc;
use crate::tier::Tier;
use crate::bytes::bytes_eq;
use crate::bytes::copy_bytes;
use crate::bytes::push_le_bytes;
use crate::bytes::spec_le_bytes;

verus! {

/// Length in bytes of an Ed25519 public key.
pub const PUBLIC_KEY_LENGTH: usize = 32;

/// Length in bytes of an Ed25519 signature.
pub const SIGNATURE_LENGTH: usize = 64;

/// Length in bytes of the canonical message to be signed:
/// one tier byte, eight timestamp bytes, thirty-two assignee bytes.
pub const SIGNED_MSG_SIZE: usize = 41;

/// Longest permitted token age in seconds: 730 days.
pub const MAX_AGE_LIMIT_SECS: u64 = 63072000;

/// Identifier of a contract instance: a 32-byte content hash.
#[derive(Debug)]
pub struct ContractInstanceId {
    pub bytes: Vec<u8>,
}

impl View for ContractInstanceId {
    type V = Seq<u8>;

    open spec fn view(&self) -> Seq<u8> {
        self.bytes@
    }
}

impl ContractInstanceId {
    /// The identifier holds exactly 32 bytes.
    pub open spec fn well_formed(self) -> bool {
        self@.len() == 32
    }

    /// Wrap raw hash bytes: `Some` exactly on 32-byte input.
    pub fn new(bytes: Vec<u8>) -> (r: Option<ContractInstanceId>)
        ensures
            r is Some <==> bytes@.len() == 32,
            r is Some ==> r.unwrap()@ == bytes@ && r.unwrap().well_formed(),
    {
        if bytes.len() == 32 {
            Some(ContractInstanceId { bytes })
        } else {
            None
        }
    }

    /// A fresh copy of this identifier.
    pub fn duplicate(&self) -> (r: ContractInstanceId)
        ensures
            r@ == self@,
    {
        ContractInstanceId { bytes: copy_bytes(&self.bytes) }
    }
}

/// The mathematical content of a [`TokenAssignment`].
#[verifier::ext_equal]
pub struct AssignmentModel {
    pub tier: Tier,
    pub time_slot: DateTimeUtc,
    pub assignee: Seq<u8>,
    pub signature: Seq<u8>,
    pub assignment_hash: Seq<u8>,
    pub token_record: Seq<u8>,
}

/// A signed claim of one time slot of one tier by an assignee public key.
///
/// `signature` must be the generator's Ed25519 signature over the canonical
/// 41-byte message of `(tier, time_slot, assignee)`; `assignment_hash` is a
/// 32-byte digest bound to the application payload; `token_record` names the
/// contract holding the assignee's records. Assignments are ordered by
/// `time_slot` alone.
#[derive(Debug)]
pub struct TokenAssignment {
    pub tier: Tier,
    pub time_slot: DateTimeUtc,
    pub assignee: Vec<u8>,
    pub signature: Vec<u8>,
    pub assignment_hash: Vec<u8>,
    pub token_record: ContractInstanceId,
}

impl View for TokenAssignment {
    type V = AssignmentModel;

    open spec fn view(&self) -> AssignmentModel {
        AssignmentModel {
            tier: self.tier,
            time_slot: self.time_slot,
            assignee: self.assignee@,
            signature: self.signature@,
            assignment_hash: self.assignment_hash@,
            token_record: self.token_record@,
        }
    }
}

impl AssignmentModel {
    /// Field widths are the fixed wire widths and the slot is a real instant.
    pub open spec fn well_formed(self) -> bool {
        &&& self.time_slot.well_formed()
        &&& self.assignee.len() == 32
        &&& self.signature.len() == 64
        &&& self.assignment_hash.len() == 32
        &&& self.token_record.len() == 32
    }
}

impl TokenAssignment {
    /// Field widths are the fixed wire widths and the slot is a real instant.
    pub open spec fn well_formed(self) -> bool {
        self@.well_formed()
    }

    /// The canonical message signed by the generator: the tier's byte, the
    /// slot's timestamp as eight little-endian bytes of its two's-complement
    /// 64-bit image, then the assignee's 32 raw key bytes.
    pub open spec fn spec_to_be_signed(issue_time: DateTimeUtc, assigned_to: Seq<u8>, tier: Tier) -> Seq<
        u8,
    > {
        seq![tier.spec_byte() as u8] + spec_le_bytes(issue_time.spec_timestamp() as u64)
            + assigned_to
    }

    /// The canonical 41-byte message of `(tier, issue_time, assigned_to)`.
    pub fn to_be_signed(issue_time: &DateTimeUtc, assigned_to: &Vec<u8>, tier: Tier) -> (r: Vec<
        u8,
    >)
        requires
            issue_time.well_formed(),
            assigned_to@.len() == 32,
        ensures
            r@ == Self::spec_to_be_signed(*issue_time, assigned_to@, tier),
            r@.len() == SIGNED_MSG_SIZE,
    {
        let mut out: Vec<u8> = Vec::new();
        out.push(tier.tier_byte());
        let ts = issue_time.timestamp();
        push_le_bytes(&mut out, ts as u64);
        let mut i: usize = 0;
        while i < 32
            invariant
                assigned_to@.len() == 32,
                i <= 32,
                out@ =~= seq![tier.spec_byte() as u8] + spec_le_bytes(
                    issue_time.spec_timestamp() as u64,
                ) + assigned_to@.take(i as int),
            decreases 32 - i,
        {
            out.push(assigned_to[i]);
            i = i + 1;
        }
        proof {
            assert(assigned_to@.take(32) =~= assigned_to@);
            assert(out@ =~= Self::spec_to_be_signed(*issue_time, assigned_to@, tier));
        }
        out
    }

    /// The slot one tier duration after this assignment's slot.
    pub fn next_slot(&self) -> (r: DateTimeUtc)
        requires
            self.well_formed(),
            self.time_slot.year < 9999,
        ensures
            r.well_formed(),
            r.spec_timestamp() == self.time_slot.spec_timestamp()
                + self.tier.spec_duration_secs(),
            r.nanosecond == self.time_slot.nanosecond,
    {
        let b = self.tier.base();
        match self.tier.family() {
            crate::tier::TierFamily::Minutes => self.time_slot.plus_minutes(b),
            crate::tier::TierFamily::Hours => self.time_slot.plus_minutes(60 * b),
            crate::tier::TierFamily::Days => self.time_slot.plus_days(b),
        }
    }

    /// The slot one tier duration before this assignment's slot.
    pub fn previous_slot(&self) -> (r: DateTimeUtc)
        requires
            self.well_formed(),
            self.time_slot.year > 1,
        ensures
            r.well_formed(),
            r.spec_timestamp() == self.time_slot.spec_timestamp()
                - self.tier.spec_duration_secs(),
            r.nanosecond == self.time_slot.nanosecond,
    {
        let b = self.tier.base();
        match self.tier.family() {
            crate::tier::TierFamily::Minutes => self.time_slot.minus_minutes(b),
            crate::tier::TierFamily::Hours => self.time_slot.minus_minutes(60 * b),
            crate::tier::TierFamily::Days => self.time_slot.minus_days(b),
        }
    }

    /// Structural equality of assignments: every field agrees.
    pub fn same_assignment(&self, other: &TokenAssignment) -> (r: bool)
        ensures
            r == (self@ == other@),
    {
        let fields_eq = tier_eq(self.tier, other.tier) && self.time_slot == other.time_slot
            && bytes_eq(&self.assignee, &other.assignee) && bytes_eq(
            &self.signature,
            &other.signature,
        ) && bytes_eq(&self.assignment_hash, &other.assignment_hash) && bytes_eq(
            &self.token_record.bytes,
            &other.token_record.bytes,
        );
        proof {
            if fields_eq {
                assert(self@ =~= other@);
            }
        }
        fields_eq
    }

    /// A fresh copy of this assignment.
    pub fn duplicate(&self) -> (r: TokenAssignment)
        ensures
            r@ == self@,
    {
        TokenAssignment {
            tier: self.tier,
            time_slot: self.time_slot,
            assignee: copy_bytes(&self.assignee),
            signature: copy_bytes(&self.signature),
            assignment_hash: copy_bytes(&self.assignment_hash),
            token_record: self.token_record.duplicate(),
        }
    }
}

/// Equality of tiers.
pub fn tier_eq(a: Tier, b: Tier) -> (r: bool)
    ensures
        r == (a == b),
{
    a == b
}

/// Why an allocation request was rejected.
#[derive(Debug)]
pub enum AllocationError {
    /// The slot of this tier has already been allocated.
    AllocatedSlot { tier: Tier, slot: DateTimeUtc },
    /// The requested maximum token age exceeds the 730-day limit.
    IncorrectMaxAge,
    /// The assignment failed its signature or structural check.
    InvalidAssignment(TokenAssignment),
}

impl AllocationError {
    /// The error reporting `assignment` as failing its checks.
    pub fn invalid_assignment(assignment: TokenAssignment) -> (r: AllocationError)
        ensures
            r matches AllocationError::InvalidAssignment(a) && a@ == assignment@,
    {
        AllocationError::InvalidAssignment(assignment)
    }

    /// The error reporting that `assignment`'s slot is already taken.
    pub fn allocated_slot(assignment: &TokenAssignment) -> (r: AllocationError)
        ensures
            r matches AllocationError::AllocatedSlot { tier, slot } && tier == assignment.tier
                && slot == assignment.time_slot,
    {
        AllocationError::AllocatedSlot { tier: assignment.tier, slot: assignment.time_slot }
    }
}

/// Parameters of a token allocation contract: the public key whose
/// signatures authorize assignments.
#[derive(Debug)]
pub struct TokenParameters {
    pub generator_public_key: Vec<u8>,
}

impl TokenParameters {
    /// The key holds exactly 32 bytes.
    pub open spec fn well_formed(self) -> bool {
        self.generator_public_key@.len() == 32
    }

    /// Wrap a generator public key: `Some` exactly on 32-byte input.
    pub fn new(generator_public_key: Vec<u8>) -> (r: Option<TokenParameters>)
        ensures
            r is Some <==> generator_public_key@.len() == 32,
            r matches Some(p) ==> p.generator_public_key@ == generator_public_key@,
    {
        if generator_public_key.len() == 32 {
            Some(TokenParameters { generator_public_key })
        } else {
            None
        }
    }
}

/// Criteria under which a contract allocates tokens: the cadence of slots,
/// the longest permitted token age and the governed contract instance.
pub struct AllocationCriteria {
    pub frequency: Tier,
    pub max_age_secs: u64,
    pub contract: ContractInstanceId,
}

impl AllocationCriteria {
    /// Build the criteria. The maximum age is capped at 730 days; a longer
    /// age is rejected with [`AllocationError::IncorrectMaxAge`].
    pub fn new(frequency: Tier, max_age_secs: u64, contract: ContractInstanceId) -> (r: Result<
        AllocationCriteria,
        AllocationError,
    >)
        requires
            contract.well_formed(),
        ensures
            max_age_secs <= MAX_AGE_LIMIT_SECS ==> (r matches Ok(c) && c.frequency == frequency
                && c.max_age_secs == max_age_secs && c.contract@ == contract@),
            max_age_secs > MAX_AGE_LIMIT_SECS ==> (r matches Err(e) && e
                == AllocationError::IncorrectMaxAge),
    {
        if max_age_secs <= MAX_AGE_LIMIT_SECS {
            Ok(AllocationCriteria { frequency, max_age_secs, contract })
        } else {
            Err(AllocationError::IncorrectMaxAge)
        }
    }
}

} // verus!
