use vstd::prelude::*;
use crate::accounts::IAccountMeta;

verus! {

/// The 32 bytes of an account address.
pub type Pubkey = [u8; 32];

/// Compares two addresses byte by byte.
pub fn keys_equal(a: &Pubkey, b: &Pubkey) -> (r: bool)
    ensures
        r == (a@ == b@),
{
    let mut i: usize = 0;
    while i < 32
        invariant
            0 <= i <= 32,
            forall|j: int| 0 <= j < i ==> a@[j] == b@[j],
        decreases 32 - i,
    {
        if a[i] != b[i] {
            return false;
        }
        i = i + 1;
    }
    assert(a@ =~= b@);
    true
}

/// Calls `bytemuck::cast_slice` to view 32 bytes as one address and copies
/// it out. The contract claims that the address holds exactly those bytes;
/// the call panics on any other length, which `requires` leaves out.
#[verifier::external_body]
pub(crate) fn key_from_bytes(bytes: &[u8]) -> (key: Pubkey)
    requires
        bytes@.len() == 32,
    ensures
        key@ == bytes@,
{
    bytemuck::cast_slice::<u8, Pubkey>(bytes)[0]
}

/// Whether `key` occurs among `keys`.
pub open spec fn key_listed(key: Pubkey, keys: Seq<Pubkey>) -> bool {
    exists|j: int| 0 <= j < keys.len() && #[trigger] keys[j]@ == key@
}

/// Whether every account's address occurs among `keys`.
pub open spec fn accounts_listed(accounts: Seq<IAccountMeta>, keys: Seq<Pubkey>) -> bool {
    forall|i: int| 0 <= i < accounts.len() ==> key_listed(#[trigger] accounts[i].pubkey, keys)
}

/// Whether `key` occurs among `keys`.
pub fn is_listed(key: &Pubkey, keys: &[Pubkey]) -> (r: bool)
    ensures
        r == key_listed(*key, keys@),
{
    let mut j: usize = 0;
    while j < keys.len()
        invariant
            0 <= j <= keys@.len(),
            forall|k: int| 0 <= k < j ==> keys@[k]@ != key@,
        decreases keys@.len() - j,
    {
        if keys_equal(&keys[j], key) {
            return true;
        }
        j = j + 1;
    }
    false
}

/// Whether every account's address occurs among `keys`.
pub fn all_listed(accounts: &[IAccountMeta], keys: &[Pubkey]) -> (r: bool)
    ensures
        r == accounts_listed(accounts@, keys@),
{
    let mut i: usize = 0;
    while i < accounts.len()
        invariant
            0 <= i <= accounts@.len(),
            forall|k: int| 0 <= k < i ==> key_listed(#[trigger] accounts@[k].pubkey, keys@),
        decreases accounts@.len() - i,
    {
        if !is_listed(&accounts[i].pubkey, keys) {
            return false;
        }
        i = i + 1;
    }
    true
}

} // verus!
