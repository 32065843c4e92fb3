//! Account addresses and program-derived address lookup.
use anchor_lang::prelude::Pubkey;
use vstd::prelude::*;

verus! {

/// A 32-byte account address.
#[derive(Clone, Copy, Debug, PartialEq, Eq)]
pub struct Address {
    pub bytes: [u8; 32],
}

impl View for Address {
    type V = Seq<u8>;

    open spec fn view(&self) -> Seq<u8> {
        self.bytes@
    }
}

impl Address {
    /// Wraps raw address bytes.
    pub fn new(bytes: [u8; 32]) -> (r: Address)
        ensures
            r@ == bytes@,
    {
        Address { bytes }
    }

    /// Byte-wise address comparison.
    pub fn same_as(&self, other: &Address) -> (r: bool)
        ensures
            r == (self@ == other@),
    {
        let mut i: usize = 0;
        while i < 32
            invariant
                0 <= i <= 32,
                self@.len() == 32,
                other@.len() == 32,
                forall|j: int| 0 <= j < i ==> self@[j] == other@[j],
            decreases 32 - i,
        {
            if self.bytes[i] != other.bytes[i] {
                return false;
            }
            i = i + 1;
        }
        assert(self@ =~= other@);
        true
    }
}

/// The bytes of this program's own address
/// (`EwPUHhorTGBKyNu7vFezfFCFej5GgNmXmABzs4VKqPEo`).
pub open spec fn program_id_bytes() -> Seq<u8> {
    seq![
        207u8, 22, 179, 129, 20, 96, 124, 228, 114, 146, 193, 112, 84, 42, 1, 78,
        110, 92, 230, 43, 14, 219, 240, 243, 79, 53, 144, 202, 147, 255, 53, 24,
    ]
}

/// The bytes of the upgradeable loader's address
/// (`BPFLoaderUpgradeab1e11111111111111111111111`).
pub open spec fn upgradeable_loader_id_bytes() -> Seq<u8> {
    seq![
        2u8, 168, 246, 145, 78, 136, 161, 176, 226, 16, 21, 62, 247, 99, 174, 43,
        0, 194, 185, 61, 22, 193, 36, 210, 192, 83, 122, 16, 4, 128, 0, 0,
    ]
}

/// The system program's address: all zero bytes.
pub open spec fn system_program_id_bytes() -> Seq<u8> {
    Seq::new(32, |i: int| 0u8)
}

/// This program's own address.
pub fn program_id() -> (r: Address)
    ensures
        r@ == program_id_bytes(),
{
    let r = Address {
        bytes: [
            207u8, 22, 179, 129, 20, 96, 124, 228, 114, 146, 193, 112, 84, 42, 1, 78,
            110, 92, 230, 43, 14, 219, 240, 243, 79, 53, 144, 202, 147, 255, 53, 24,
        ],
    };
    assert(r@ =~= program_id_bytes());
    r
}

/// The upgradeable loader's address, owner of every program-data record.
pub fn upgradeable_loader_id() -> (r: Address)
    ensures
        r@ == upgradeable_loader_id_bytes(),
{
    let r = Address {
        bytes: [
            2u8, 168, 246, 145, 78, 136, 161, 176, 226, 16, 21, 62, 247, 99, 174, 43,
            0, 194, 185, 61, 22, 193, 36, 210, 192, 83, 122, 16, 4, 128, 0, 0,
        ],
    };
    assert(r@ =~= upgradeable_loader_id_bytes());
    r
}

/// The system program's address, owner of every unallocated account.
pub fn system_program_id() -> (r: Address)
    ensures
        r@ == system_program_id_bytes(),
{
    let r = Address { bytes: [0u8; 32] };
    assert(r@ =~= system_program_id_bytes());
    r
}

/// The views of a list of seeds.
pub open spec fn seeds_view(seeds: Seq<Vec<u8>>) -> Seq<Seq<u8>> {
    seeds.map_values(|s: Vec<u8>| s@)
}

/// The program-derived address search on seed bytes and a program address:
/// the address and bump seed found, or `None` when no bump seed works or the
/// seeds break the limits on their number and length.
pub uninterp spec fn program_address_of(seeds: Seq<Seq<u8>>, program: Seq<u8>) -> Option<(Seq<u8>, u8)>;

/// The view of a search result.
pub open spec fn found_view(r: Option<(Address, u8)>) -> Option<(Seq<u8>, u8)> {
    match r {
        Some((a, b)) => Some((a@, b)),
        None => None,
    }
}

/// Relies on `Pubkey::try_find_program_address`, which is deterministic in its
/// arguments and returns `None` instead of panicking when no address is found.
#[verifier::external_body]
fn try_find_program_address(seeds: &Vec<Vec<u8>>, program: &Address) -> (r: Option<(Address, u8)>)
    ensures
        found_view(r) == program_address_of(seeds_view(seeds@), program@),
{
    let slices: Vec<&[u8]> = seeds.iter().map(|s| s.as_slice()).collect();
    Pubkey::try_find_program_address(&slices, &Pubkey::new_from_array(program.bytes)).map(
        |(k, b)| (Address { bytes: k.to_bytes() }, b),
    )
}

/// The address derived from `seeds` under `program`, if one exists.
pub open spec fn derived_address(seeds: Seq<Seq<u8>>, program: Seq<u8>) -> Option<Seq<u8>> {
    match program_address_of(seeds, program) {
        Some((a, _)) => Some(a),
        None => None,
    }
}

/// Finds the program-derived address of `seeds` under `program`, without its bump seed.
pub fn find_address(seeds: &Vec<Vec<u8>>, program: &Address) -> (r: Option<Address>)
    ensures
        match r {
            Some(a) => derived_address(seeds_view(seeds@), program@) == Some(a@),
            None => derived_address(seeds_view(seeds@), program@) is None,
        },
{
    match try_find_program_address(seeds, program) {
        Some((a, _)) => Some(a),
        None => None,
    }
}

/// Seeds of the program-data record: the program's own address.
pub open spec fn program_data_seeds(program: Seq<u8>) -> Seq<Seq<u8>> {
    seq![program]
}

/// The address of `program`'s program-data record, derived under the upgradeable loader.
pub fn program_data_address(program: &Address) -> (r: Option<Address>)
    ensures
        match r {
            Some(a) => derived_address(program_data_seeds(program@), upgradeable_loader_id_bytes())
                == Some(a@),
            None => derived_address(program_data_seeds(program@), upgradeable_loader_id_bytes()) is None,
        },
{
    let mut seed: Vec<u8> = Vec::new();
    let mut i: usize = 0;
    while i < 32
        invariant
            0 <= i <= 32,
            program@.len() == 32,
            seed@ == program@.subrange(0, i as int),
        decreases 32 - i,
    {
        seed.push(program.bytes[i]);
        i = i + 1;
    }
    assert(seed@ =~= program@);
    let seeds: Vec<Vec<u8>> = vec![seed];
    assert(seeds_view(seeds@) =~= program_data_seeds(program@));
    find_address(&seeds, &upgradeable_loader_id())
}

} // verus!
