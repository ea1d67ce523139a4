//! Addresses of records, and how an address follows from a record's identity.

use vstd::prelude::*;
use vstd::string::StrSliceExecFns;
use vstd::utf8::encode_utf8;
use crate::constants::MAX_ID_LENGTH;

verus! {

/// 32 zero bytes.
pub const ZERO_BYTES: [u8; 32] = [
    0, 0, 0, 0, 0, 0, 0, 0, 0, 0, 0, 0, 0, 0, 0, 0,
    0, 0, 0, 0, 0, 0, 0, 0, 0, 0, 0, 0, 0, 0, 0, 0,
];

/// The address of an account: 32 bytes.
#[derive(Clone, Copy, Debug)]
pub struct Address {
    pub bytes: [u8; 32],
}

impl View for Address {
    type V = Seq<u8>;

    open spec fn view(&self) -> Seq<u8> {
        self.bytes@
    }
}

impl PartialEq for Address {
    fn eq(&self, other: &Address) -> (r: bool) {
        let mut i: usize = 0;
        while i < 32
            invariant
                i <= 32,
                forall|j: int| 0 <= j < i ==> self.bytes[j] == other.bytes[j],
            decreases 32 - i,
        {
            if self.bytes[i] != other.bytes[i] {
                return false;
            }
            i = i + 1;
        }
        assert(self.bytes =~= other.bytes);
        true
    }
}

impl Eq for Address {}

impl vstd::std_specs::cmp::PartialEqSpecImpl for Address {
    open spec fn obeys_eq_spec() -> bool {
        true
    }

    open spec fn eq_spec(&self, other: &Address) -> bool {
        *self == *other
    }
}

impl Default for Address {
    /// The address of 32 zero bytes.
    fn default() -> (r: Address)
        ensures
            r == Address::zero(),
    {
        Address { bytes: ZERO_BYTES }
    }
}

impl Address {
    /// The address of 32 zero bytes.
    pub open spec fn zero() -> Address {
        Address { bytes: ZERO_BYTES }
    }

    /// The address of the bytes `bytes`.
    pub fn new(bytes: [u8; 32]) -> (r: Address)
        ensures
            r.bytes == bytes,
    {
        Address { bytes }
    }

    /// The bytes of the address.
    pub fn to_bytes(&self) -> (r: [u8; 32])
        ensures
            r == self.bytes,
    {
        self.bytes
    }

    /// The address as an addressing seed.
    pub fn seed(&self) -> (r: Vec<u8>)
        ensures
            r@ == self@,
    {
        let mut out: Vec<u8> = Vec::new();
        let mut i: usize = 0;
        while i < 32
            invariant
                i <= 32,
                out@ == self@.take(i as int),
            decreases 32 - i,
        {
            out.push(self.bytes[i]);
            assert(self@.take(i + 1) == self@.take(i as int).push(self.bytes[i as int]));
            i = i + 1;
        }
        assert(self@.take(32) == self@);
        out
    }

    /// Two addresses of the same bytes are the same address.
    pub proof fn lemma_view_injective(a: Address, b: Address)
        requires
            a@ == b@,
        ensures
            a == b,
    {
        assert(a.bytes =~= b.bytes);
    }
}

/// The bytes of the program that owns agents, capsules, stake records and
/// earnings.
pub const MARKET_PROGRAM_ID: [u8; 32] = [
    218, 7, 92, 178, 255, 94, 198, 129, 118, 19, 222, 83, 11, 105, 42, 135,
    53, 71, 119, 105, 218, 71, 67, 12, 189, 129, 84, 51, 92, 74, 131, 39,
];

/// The bytes of the program that owns staking pools and users' stakes.
pub const POOL_PROGRAM_ID: [u8; 32] = [
    165, 84, 81, 11, 176, 74, 123, 28, 163, 120, 188, 206, 27, 182, 41, 165,
    9, 207, 90, 235, 136, 191, 240, 150, 117, 81, 38, 204, 156, 11, 165, 173,
];

/// The kinds of record that have a derived address.
#[derive(Clone, Copy, Debug, PartialEq, Eq, Structural)]
pub enum Kind {
    Agent,
    Capsule,
    Staking,
    Earnings,
    StakingPool,
    UserStake,
}

impl Kind {
    /// The tag that opens the seeds of every record of this kind.
    pub open spec fn tag(self) -> Seq<char> {
        match self {
            Kind::Agent => "agent"@,
            Kind::Capsule => "capsule"@,
            Kind::Staking => "staking"@,
            Kind::Earnings => "earnings"@,
            Kind::StakingPool => "staking_pool"@,
            Kind::UserStake => "user_stake"@,
        }
    }

    /// The program under which records of this kind are addressed.
    pub open spec fn program(self) -> Address {
        match self {
            Kind::StakingPool | Kind::UserStake => Address { bytes: POOL_PROGRAM_ID },
            _ => Address { bytes: MARKET_PROGRAM_ID },
        }
    }

    /// The tag that opens the seeds of every record of this kind.
    pub fn tag_text(&self) -> (r: &'static str)
        ensures
            r@ == self.tag(),
    {
        match self {
            Kind::Agent => "agent",
            Kind::Capsule => "capsule",
            Kind::Staking => "staking",
            Kind::Earnings => "earnings",
            Kind::StakingPool => "staking_pool",
            Kind::UserStake => "user_stake",
        }
    }

    /// The program under which records of this kind are addressed.
    pub fn program_id(&self) -> (r: Address)
        ensures
            r == self.program(),
    {
        match self {
            Kind::StakingPool | Kind::UserStake => Address { bytes: POOL_PROGRAM_ID },
            _ => Address { bytes: MARKET_PROGRAM_ID },
        }
    }
}

/// The seeds that the byte vectors `parts` hold.
pub open spec fn views(parts: Seq<Vec<u8>>) -> Seq<Seq<u8>> {
    Seq::new(parts.len(), |i: int| parts[i]@)
}

/// What the host derives from `seeds` under the program of bytes `program`:
/// the bytes of an address that no key pair signs for and the bump that
/// completes the seeds, or `None` where it finds no such address.
pub uninterp spec fn program_address(seeds: Seq<Seq<u8>>, program: Seq<u8>) -> Option<(Seq<u8>, u8)>;

/// `Pubkey::try_find_program_address` of anchor_lang. It hashes the seeds, a
/// bump and the program's bytes, and returns the first address off the curve
/// with its bump, trying the bumps from 255 down to 1; it returns `None`
/// where there are 16 seeds or more, where a seed is longer than 32 bytes, or
/// where no bump gives an address off the curve. The contract claims only
/// that the result is a function of the seeds and the program, which
/// `program_address` names.
#[verifier::external_body]
fn try_find_program_address(seeds: &Vec<Vec<u8>>, program: &Address) -> (r: Option<(Address, u8)>)
    ensures
        match r {
            Some((address, bump)) => program_address(views(seeds@), program@) == Some(
                (address@, bump),
            ),
            None => program_address(views(seeds@), program@) is None,
        },
{
    let parts: Vec<&[u8]> = seeds.iter().map(|seed| seed.as_slice()).collect();
    let id = anchor_lang::prelude::Pubkey::new_from_array(program.bytes);
    match anchor_lang::prelude::Pubkey::try_find_program_address(&parts, &id) {
        Some((key, bump)) => Some((Address { bytes: key.to_bytes() }, bump)),
        None => None,
    }
}

/// The address whose bytes are `bytes`.
pub closed spec fn address_of(bytes: Seq<u8>) -> Address {
    choose|a: Address| a@ == bytes
}

/// The address of the bytes of an address is that address.
pub proof fn lemma_address_of(a: Address)
    ensures
        address_of(a@) == a,
{
    Address::lemma_view_injective(address_of(a@), a);
}

/// Whether every part may serve as a seed.
pub open spec fn seeds_fit(parts: Seq<Seq<u8>>) -> bool {
    forall|i: int| 0 <= i < parts.len() ==> (#[trigger] parts[i]).len() <= MAX_ID_LENGTH
}

/// The address of the record of kind `kind` that `parts` identify, and the
/// proof that goes with it. There is none where a part is too long to be a
/// seed, or where the host derives none.
pub open spec fn address_for(kind: Kind, parts: Seq<Seq<u8>>) -> Option<(Address, u8)> {
    if seeds_fit(parts) {
        match program_address(seq![encode_utf8(kind.tag())] + parts, kind.program()@) {
            Some((bytes, bump)) => Some((address_of(bytes), bump)),
            None => None,
        }
    } else {
        None
    }
}

/// Derives the address of a record from its kind and the parts of its
/// identity. A part that is too long to be a seed ends the attempt before
/// anything is derived.
pub fn address(kind: Kind, parts: &Vec<Vec<u8>>) -> (r: Option<(Address, u8)>)
    ensures
        r == address_for(kind, views(parts@)),
{
    let mut seeds: Vec<Vec<u8>> = Vec::new();
    seeds.push(kind.tag_text().as_bytes_vec());
    let mut i: usize = 0;
    while i < parts.len()
        invariant
            i <= parts.len(),
            views(seeds@) == seq![encode_utf8(kind.tag())] + views(parts@).take(i as int),
            seeds_fit(views(parts@).take(i as int)),
        decreases parts.len() - i,
    {
        if parts[i].len() > MAX_ID_LENGTH {
            assert(views(parts@)[i as int].len() > MAX_ID_LENGTH);
            assert(!seeds_fit(views(parts@)));
            return None;
        }
        let seed: Vec<u8> = parts[i].clone();
        assert(seed@ == parts[i as int]@);
        let ghost before = seeds@;
        seeds.push(seed);
        assert(views(seeds@) == views(before).push(parts[i as int]@));
        assert(views(parts@).take(i + 1) == views(parts@).take(i as int).push(views(parts@)[i as int]));
        assert(views(seeds@) == seq![encode_utf8(kind.tag())] + views(parts@).take(i + 1));
        i = i + 1;
    }
    assert(views(parts@).take(parts.len() as int) == views(parts@));
    let program = kind.program_id();
    match try_find_program_address(&seeds, &program) {
        Some((found, bump)) => {
            proof {
                lemma_address_of(found);
            }
            Some((found, bump))
        },
        None => None,
    }
}

} // verus!
