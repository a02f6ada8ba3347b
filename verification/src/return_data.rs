use vstd::prelude::*;
use vstd::slice::slice_subrange;
use anchor_lang::AnchorDeserialize;
use crate::accounts::{IAccountMeta, InterfaceError};
use crate::keys::{Pubkey, key_from_bytes};
use crate::matching::{
    as_ints, key_views, matched_indices, match_remaining_accounts, requested_keys, occurrences,
    lemma_matching_well_formed, lemma_full_matching_aligned, lemma_full_matching_iff_supplied,
};

verus! {

#[verifier::external_type_specification]
#[verifier::external_body]
pub struct ExIoError(std::io::Error);

/// Bytes of the leading account count.
pub const COUNT_LEN: usize = 4;

/// Bytes of one requested account: the address, then the signer and
/// writable flags.
pub const RECORD_LEN: usize = 34;

/// Bytes of an address.
pub const KEY_LEN: usize = 32;

/// The little-endian value of four bytes.
pub open spec fn le_u32(b: Seq<u8>) -> int {
    b[0] + 256 * b[1] + 65536 * b[2] + 16777216 * b[3]
}

/// Calls borsh's `try_from_slice` for `u32` (anchor's `AnchorDeserialize`).
/// The contract claims what borsh's source shows: the call succeeds exactly
/// on four bytes, and then reads them little-endian.
#[verifier::external_body]
fn u32_try_from_slice(bytes: &[u8]) -> (r: Result<u32, std::io::Error>)
    ensures
        r is Ok <==> bytes@.len() == 4,
        r matches Ok(v) ==> v == le_u32(bytes@),
{
    u32::try_from_slice(bytes)
}

/// The number of accounts that return data announces.
pub open spec fn requested_count(data: Seq<u8>) -> int {
    le_u32(data.take(COUNT_LEN as int))
}

/// Offset of the `i`-th requested account.
pub open spec fn record_start(i: int) -> int {
    COUNT_LEN + RECORD_LEN * i
}

/// Whether return data holds its count and every account it announces.
pub open spec fn return_data_complete(data: Seq<u8>) -> bool {
    &&& data.len() >= COUNT_LEN
    &&& data.len() >= record_start(requested_count(data))
}

/// Whether `meta` is the `i`-th account of `data`: a flag is set exactly
/// when its byte is one.
pub open spec fn decodes_record(meta: IAccountMeta, data: Seq<u8>, i: int) -> bool {
    let s = record_start(i);
    &&& meta.pubkey@ == data.subrange(s, s + KEY_LEN)
    &&& meta.signer == (data[s + KEY_LEN] == 1)
    &&& meta.writable == (data[s + KEY_LEN + 1] == 1)
}

/// Whether `metas` are all the accounts that `data` announces, in order.
pub open spec fn decodes_requested(metas: Seq<IAccountMeta>, data: Seq<u8>) -> bool {
    &&& metas.len() == requested_count(data)
    &&& forall|i: int| 0 <= i < metas.len() ==> decodes_record(#[trigger] metas[i], data, i)
}

/// Reads the account count at the head of return data.
pub fn requested_account_count(data: &[u8]) -> (n: u32)
    requires
        data@.len() >= COUNT_LEN,
    ensures
        n == requested_count(data@),
{
    let head = slice_subrange(data, 0, COUNT_LEN);
    match u32_try_from_slice(head) {
        Ok(n) => n,
        Err(_) => {
            assert(false);
            0
        },
    }
}

/// Whether return data holds its count and every account it announces.
pub fn is_return_data_complete(data: &[u8]) -> (r: bool)
    ensures
        r == return_data_complete(data@),
        r == (data@.len() >= 4 && data@.len() >= 4 + 34 * (data@[0] + 256 * data@[1] + 65536 * data@[2]
            + 16777216 * data@[3])),
{
    proof {
        lemma_complete_iff_records_present(data@);
    }
    if data.len() < COUNT_LEN {
        return false;
    }
    let n = requested_account_count(data);
    let count = n as usize;
    if count > (data.len() - COUNT_LEN) / RECORD_LEN {
        assert(data@.len() < record_start(requested_count(data@))) by (nonlinear_arith)
            requires
                count > (data@.len() - COUNT_LEN) / (RECORD_LEN as int),
                count == requested_count(data@),
        ;
        false
    } else {
        assert(data@.len() >= record_start(requested_count(data@))) by (nonlinear_arith)
            requires
                count <= (data@.len() - COUNT_LEN) / (RECORD_LEN as int),
                count == requested_count(data@),
                data@.len() >= COUNT_LEN,
        ;
        true
    }
}

/// Completeness depends only on the count and the records: bytes appended to
/// complete data keep it complete, announce the same count and the same
/// accounts.
pub proof fn lemma_complete_data_extends(data: Seq<u8>, extra: Seq<u8>)
    requires
        return_data_complete(data),
    ensures
        return_data_complete(data + extra),
        requested_count(data + extra) == requested_count(data),
        announced_keys(data + extra) == announced_keys(data),
        forall|m: Seq<IAccountMeta>| decodes_requested(m, data) ==> #[trigger] decodes_requested(m, data + extra),
{
    let d2 = data + extra;
    assert(d2.take(4) =~= data.take(4));
    assert forall|i: int| 0 <= i < requested_count(data) implies #[trigger] d2.subrange(record_start(i), record_start(i) + KEY_LEN)
        == data.subrange(record_start(i), record_start(i) + KEY_LEN) by {
        assert(d2.subrange(record_start(i), record_start(i) + KEY_LEN) =~= data.subrange(record_start(i), record_start(i) + KEY_LEN));
    }
    assert(announced_keys(d2) =~= announced_keys(data));
    assert forall|m: Seq<IAccountMeta>| decodes_requested(m, data) implies #[trigger] decodes_requested(m, d2) by {
        assert forall|i: int| 0 <= i < m.len() implies decodes_record(#[trigger] m[i], d2, i) by {
            assert(decodes_record(m[i], data, i));
            let s = record_start(i);
            assert(d2.subrange(s, s + KEY_LEN) =~= data.subrange(s, s + KEY_LEN));
        }
    }
}

/// Complete data is exactly data holding the four count bytes and, after
/// them, a 34-byte record for each account the count announces.
pub proof fn lemma_complete_iff_records_present(data: Seq<u8>)
    ensures
        return_data_complete(data) <==> (data.len() >= 4 && data.len() >= 4 + 34 * (data[0] + 256 * data[1]
            + 65536 * data[2] + 16777216 * data[3])),
{
    if data.len() >= 4 {
        assert(data.take(4)[0] == data[0]);
        assert(data.take(4)[1] == data[1]);
        assert(data.take(4)[2] == data[2]);
        assert(data.take(4)[3] == data[3]);
    }
}

/// Reads the `i`-th requested account.
fn read_record(data: &[u8], i: usize) -> (meta: IAccountMeta)
    requires
        data@.len() >= record_start(i + 1),
    ensures
        decodes_record(meta, data@, i as int),
{
    let len = data.len();
    assert(COUNT_LEN + (i + 1) * RECORD_LEN <= len);
    let start = COUNT_LEN + i * RECORD_LEN;
    let end = COUNT_LEN + (i + 1) * RECORD_LEN;
    let pubkey = key_from_bytes(slice_subrange(data, start, end - 2));
    let signer: bool = data[end - 2] == 1u8;
    let writable: bool = data[end - 1] == 1u8;
    IAccountMeta { pubkey, signer, writable }
}

/// Decodes every account that return data announces.
pub fn parse_requested_accounts(data: &[u8]) -> (metas: Vec<IAccountMeta>)
    requires
        return_data_complete(data@),
    ensures
        decodes_requested(metas@, data@),
{
    let n = requested_account_count(data);
    let mut metas: Vec<IAccountMeta> = Vec::new();
    let mut i: u32 = 0;
    while i < n
        invariant
            0 <= i <= n,
            n == requested_count(data@),
            return_data_complete(data@),
            metas@.len() == i,
            forall|k: int| 0 <= k < i ==> decodes_record(#[trigger] metas@[k], data@, k),
        decreases n - i,
    {
        let meta = read_record(data, i as usize);
        metas.push(meta);
        i = i + 1;
    }
    metas
}

/// The four little-endian bytes of `n`.
pub open spec fn le_u32_bytes(n: nat) -> Seq<u8> {
    seq![
        (n % 256) as u8,
        ((n / 256) % 256) as u8,
        ((n / 65536) % 256) as u8,
        ((n / 16777216) % 256) as u8,
    ]
}

/// The byte of a flag: one when set, zero otherwise.
pub open spec fn flag_byte(b: bool) -> u8 {
    if b { 1 } else { 0 }
}

/// The bytes of one account: its address, then its signer and writable flags.
pub open spec fn record_bytes(m: IAccountMeta) -> Seq<u8> {
    m.pubkey@ + seq![flag_byte(m.signer), flag_byte(m.writable)]
}

/// The bytes of a list of accounts, one record after another.
pub open spec fn records_bytes(accounts: Seq<IAccountMeta>) -> Seq<u8>
    decreases accounts.len(),
{
    if accounts.len() == 0 {
        Seq::empty()
    } else {
        records_bytes(accounts.drop_last()) + record_bytes(accounts.last())
    }
}

/// The serialized form of a page of additional accounts, as an interface
/// program returns it: the account count as four little-endian bytes, each
/// account's record, then the `has_more` flag.
pub open spec fn encoded_additional_accounts(accounts: Seq<IAccountMeta>, has_more: bool) -> Seq<u8> {
    le_u32_bytes(accounts.len()) + records_bytes(accounts) + seq![flag_byte(has_more)]
}

proof fn lemma_records_bytes(accounts: Seq<IAccountMeta>)
    ensures
        records_bytes(accounts).len() == RECORD_LEN * accounts.len(),
        forall|i: int| 0 <= i < accounts.len() ==> records_bytes(accounts).subrange(
            RECORD_LEN * i,
            RECORD_LEN * i + RECORD_LEN,
        ) == record_bytes(#[trigger] accounts[i]),
    decreases accounts.len(),
{
    if accounts.len() > 0 {
        let prev = accounts.drop_last();
        lemma_records_bytes(prev);
        let r = records_bytes(accounts);
        assert forall|i: int| 0 <= i < accounts.len() implies r.subrange(
            RECORD_LEN * i,
            RECORD_LEN * i + RECORD_LEN,
        ) == record_bytes(#[trigger] accounts[i]) by {
            if i < accounts.len() - 1 {
                assert(prev[i] == accounts[i]);
                assert(r.subrange(RECORD_LEN * i, RECORD_LEN * i + RECORD_LEN) =~= records_bytes(prev).subrange(
                    RECORD_LEN * i,
                    RECORD_LEN * i + RECORD_LEN,
                ));
            } else {
                assert(r.subrange(RECORD_LEN * i, RECORD_LEN * i + RECORD_LEN) =~= record_bytes(accounts.last()));
            }
        }
    }
}

/// Serialized accounts decode back through the compact layout: the data is
/// complete, announces as many accounts as were written, and its records are
/// exactly those accounts, whatever `has_more` was.
pub proof fn lemma_encoded_accounts_decode(accounts: Seq<IAccountMeta>, has_more: bool)
    requires
        accounts.len() <= u32::MAX,
    ensures
        ({
            let data = encoded_additional_accounts(accounts, has_more);
            &&& return_data_complete(data)
            &&& requested_count(data) == accounts.len()
            &&& decodes_requested(accounts, data)
            &&& announced_keys(data) == requested_keys(accounts)
        }),
{
    let n = accounts.len();
    let data = encoded_additional_accounts(accounts, has_more);
    let r = records_bytes(accounts);
    lemma_records_bytes(accounts);
    assert(data.take(4) =~= le_u32_bytes(n));
    assert(le_u32(le_u32_bytes(n)) == n) by (nonlinear_arith)
        requires
            n <= 4294967295,
            le_u32_bytes(n)[0] == n % 256,
            le_u32_bytes(n)[1] == (n / 256) % 256,
            le_u32_bytes(n)[2] == (n / 65536) % 256,
            le_u32_bytes(n)[3] == (n / 16777216) % 256,
    ;
    assert forall|i: int| 0 <= i < n implies decodes_record(#[trigger] accounts[i], data, i) by {
        let s = record_start(i);
        let rec = r.subrange(RECORD_LEN * i, RECORD_LEN * i + RECORD_LEN);
        assert(rec == record_bytes(accounts[i]));
        assert(data.subrange(s, s + KEY_LEN) =~= rec.subrange(0, KEY_LEN as int));
        assert(rec.subrange(0, KEY_LEN as int) =~= accounts[i].pubkey@);
        assert(data[s + KEY_LEN] == rec[KEY_LEN as int]);
        assert(data[s + KEY_LEN + 1] == rec[KEY_LEN + 1]);
    }
    assert(announced_keys(data) =~= requested_keys(accounts));
}

/// Two decodings of the same data hold the same accounts.
pub proof fn lemma_decoding_unique(a: Seq<IAccountMeta>, b: Seq<IAccountMeta>, data: Seq<u8>)
    requires
        decodes_requested(a, data),
        decodes_requested(b, data),
    ensures
        a.len() == b.len(),
        forall|i: int| 0 <= i < a.len() ==> {
            &&& (#[trigger] a[i]).pubkey@ == b[i].pubkey@
            &&& a[i].signer == b[i].signer
            &&& a[i].writable == b[i].writable
        },
{
    assert forall|i: int| 0 <= i < a.len() implies {
        &&& (#[trigger] a[i]).pubkey@ == b[i].pubkey@
        &&& a[i].signer == b[i].signer
        &&& a[i].writable == b[i].writable
    } by {
        assert(decodes_record(a[i], data, i));
        assert(decodes_record(b[i], data, i));
    }
}

/// When an interface program answers with serialized accounts, resolution
/// succeeds exactly when each requested address is supplied at least as many
/// times as it is requested.
pub proof fn lemma_encoded_resolution(accounts: Seq<IAccountMeta>, has_more: bool, keys: Seq<Pubkey>)
    requires
        accounts.len() <= u32::MAX,
    ensures
        ({
            let data = encoded_additional_accounts(accounts, has_more);
            matched_indices(announced_keys(data), key_views(keys)).len() == requested_count(data)
                <==> forall|x: Seq<u8>| #[trigger] occurrences(requested_keys(accounts), x)
                <= occurrences(key_views(keys), x)
        }),
{
    lemma_encoded_accounts_decode(accounts, has_more);
    lemma_full_matching_iff_supplied(requested_keys(accounts), key_views(keys));
}

/// The addresses that return data announces, in order.
pub open spec fn announced_keys(data: Seq<u8>) -> Seq<Seq<u8>> {
    Seq::new(
        requested_count(data) as nat,
        |i: int| data.subrange(record_start(i), record_start(i) + KEY_LEN),
    )
}

/// The requested accounts of a preflight answer, and where each one is found.
pub struct ResolvedAccounts {
    /// Every requested account, in the order of the return data.
    pub metas: Vec<IAccountMeta>,
    /// For each requested account, the index of the supplied account that
    /// serves it.
    pub sources: Vec<usize>,
}

/// Decodes the accounts that a preflight call requests and finds each one
/// among the supplied addresses, each supplied address serving at most one
/// request. Fails when some request finds no address left to serve it.
pub fn resolve_requested_accounts(return_data: &[u8], remaining_keys: &[Pubkey]) -> (r: Result<
    ResolvedAccounts,
    InterfaceError,
>)
    requires
        return_data_complete(return_data@),
    ensures
        r is Ok <==> matched_indices(announced_keys(return_data@), key_views(remaining_keys@)).len()
            == requested_count(return_data@),
        r is Ok <==> forall|x: Seq<u8>| #[trigger] occurrences(announced_keys(return_data@), x)
            <= occurrences(key_views(remaining_keys@), x),
        r matches Ok(res) ==> {
            &&& decodes_requested(res.metas@, return_data@)
            &&& as_ints(res.sources@) == matched_indices(
                announced_keys(return_data@),
                key_views(remaining_keys@),
            )
            &&& res.sources@.len() == res.metas@.len()
            &&& forall|k: int| 0 <= k < res.sources@.len() ==> {
                &&& #[trigger] res.sources@[k] < remaining_keys@.len()
                &&& remaining_keys@[res.sources@[k] as int]@ == res.metas@[k].pubkey@
            }
            &&& forall|a: int, b: int| 0 <= a < b < res.sources@.len() ==> res.sources@[a] != res.sources@[b]
        },
        r matches Err(e) ==> e == InterfaceError::InvalidAccountData,
{
    let metas = parse_requested_accounts(return_data);
    assert(requested_keys(metas@) =~= announced_keys(return_data@));
    let sources = match_remaining_accounts(metas.as_slice(), remaining_keys);
    let ghost requested = announced_keys(return_data@);
    let ghost keys = key_views(remaining_keys@);
    proof {
        lemma_matching_well_formed(requested, keys);
        lemma_full_matching_iff_supplied(requested, keys);
        if matched_indices(requested, keys).len() == requested.len() {
            lemma_full_matching_aligned(requested, keys);
            assert forall|k: int| 0 <= k < sources@.len() implies {
                &&& #[trigger] sources@[k] < remaining_keys@.len()
                &&& remaining_keys@[sources@[k] as int]@ == metas@[k].pubkey@
            } by {
                assert(as_ints(sources@)[k] == sources@[k] as int);
                assert(requested[k] == metas@[k].pubkey@);
                assert(keys[matched_indices(requested, keys)[k]] == requested[k]);
            }
            assert forall|a: int, b: int| 0 <= a < b < sources@.len() implies sources@[a] != sources@[b] by {
                assert(as_ints(sources@)[a] == sources@[a] as int);
                assert(as_ints(sources@)[b] == sources@[b] as int);
            }
        }
    }
    if sources.len() != metas.len() {
        return Err(InterfaceError::InvalidAccountData);
    }
    Ok(ResolvedAccounts { metas, sources })
}

} // verus!
