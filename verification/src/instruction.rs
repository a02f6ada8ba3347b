use vstd::prelude::*;
use vstd::slice::slice_to_vec;
use vstd::string::StringSliceAdditionalSpecFns;
use anchor_lang::solana_program::hash;

verus! {

/// The SHA-256 digest of `data`, as computed by the runtime's hasher.
pub uninterp spec fn spec_sha256(data: Seq<u8>) -> Seq<u8>;

/// Calls `solana_program::hash::hash` and hands back the digest's bytes. The
/// contract claims only that the digest is a function of `data` (named by
/// `spec_sha256`); its 32-byte length comes from the result type.
#[verifier::external_body]
fn sha256(data: &[u8]) -> (digest: [u8; 32])
    ensures
        digest@ == spec_sha256(data@),
{
    hash::hash(data).to_bytes()
}

/// Number of bytes of the digest that select an instruction.
pub const SIGHASH_LEN: usize = 8;

/// The selector of an instruction: the first bytes of the digest of its preimage.
pub open spec fn spec_sighash(preimage: Seq<u8>) -> Seq<u8> {
    spec_sha256(preimage).take(SIGHASH_LEN as int)
}

/// The preimage that selects the preflight function of `name`.
pub open spec fn preflight_preimage(name: Seq<u8>) -> Seq<u8> {
    "global:preflight_".spec_bytes() + name
}

/// The preimage that selects the instruction `name` itself.
pub open spec fn interface_preimage(name: Seq<u8>) -> Seq<u8> {
    "global:".spec_bytes() + name
}

/// Data of a preflight call without a page: selector, then arguments.
pub open spec fn unpaged_preflight_data(name: Seq<u8>, args: Seq<u8>) -> Seq<u8> {
    spec_sighash(preflight_preimage(name)) + args
}

/// Data of a paged preflight call: selector, arguments, then the page.
pub open spec fn paged_preflight_data(name: Seq<u8>, args: Seq<u8>, page: u8) -> Seq<u8> {
    spec_sighash(preflight_preimage(name)) + args + seq![page]
}

/// Data of the interface call: selector, then arguments.
pub open spec fn interface_data(name: Seq<u8>, args: Seq<u8>) -> Seq<u8> {
    spec_sighash(interface_preimage(name)) + args
}

/// A paged preflight call carries the data of the unpaged one with the page
/// number appended.
pub proof fn lemma_paged_extends_unpaged(name: Seq<u8>, args: Seq<u8>, page: u8)
    ensures
        paged_preflight_data(name, args, page) == unpaged_preflight_data(name, args).push(page),
{
    assert(paged_preflight_data(name, args, page) =~= unpaged_preflight_data(name, args).push(page));
}

/// Instruction data starts with the eight-byte selector of its preimage and
/// carries the arguments (and, for a paged preflight call, the page) after
/// it; a digest has at least eight bytes, as every digest the hasher hands
/// back has 32.
pub proof fn lemma_instruction_data_layout(name: Seq<u8>, args: Seq<u8>, page: u8)
    requires
        spec_sha256("global:".spec_bytes() + name).len() >= 8,
        spec_sha256("global:preflight_".spec_bytes() + name).len() >= 8,
    ensures
        interface_data(name, args).take(8) == spec_sha256("global:".spec_bytes() + name).take(8),
        interface_data(name, args).skip(8) == args,
        unpaged_preflight_data(name, args).take(8) == spec_sha256("global:preflight_".spec_bytes() + name).take(8),
        unpaged_preflight_data(name, args).skip(8) == args,
        paged_preflight_data(name, args, page).take(8) == spec_sha256("global:preflight_".spec_bytes() + name).take(8),
        paged_preflight_data(name, args, page).skip(8) == args.push(page),
{
    assert(interface_data(name, args).take(8) =~= spec_sha256("global:".spec_bytes() + name).take(8));
    assert(interface_data(name, args).skip(8) =~= args);
    assert(unpaged_preflight_data(name, args).take(8) =~= spec_sha256("global:preflight_".spec_bytes() + name).take(8));
    assert(unpaged_preflight_data(name, args).skip(8) =~= args);
    assert(paged_preflight_data(name, args, page).take(8) =~= spec_sha256("global:preflight_".spec_bytes() + name).take(8));
    assert(paged_preflight_data(name, args, page).skip(8) =~= args.push(page));
}

/// The first eight bytes of the SHA-256 digest of `preimage`.
pub fn sighash(preimage: &[u8]) -> (selector: Vec<u8>)
    ensures
        selector@ == spec_sighash(preimage@),
        selector@ == spec_sha256(preimage@).take(8),
        selector@.len() == SIGHASH_LEN,
{
    let digest = sha256(preimage);
    let mut selector: Vec<u8> = Vec::new();
    let mut i: usize = 0;
    while i < SIGHASH_LEN
        invariant
            0 <= i <= SIGHASH_LEN,
            digest@ == spec_sha256(preimage@),
            selector@ == digest@.take(i as int),
        decreases SIGHASH_LEN - i,
    {
        selector.push(digest[i]);
        i = i + 1;
        assert(selector@ =~= digest@.take(i as int));
    }
    selector
}

/// Bytes of `prefix` followed by the UTF-8 bytes of `name`.
fn preimage_of(prefix: &str, name: &str) -> (preimage: Vec<u8>)
    ensures
        preimage@ == prefix.spec_bytes() + name.spec_bytes(),
{
    let mut preimage = slice_to_vec(prefix.as_bytes());
    let mut rest = slice_to_vec(name.as_bytes());
    preimage.append(&mut rest);
    preimage
}

/// Instruction data of a paged preflight call: the selector of
/// `preflight_<name>`, the arguments, then the page number.
pub fn preflight_instruction_data(function_name: &str, args: &[u8], page: u8) -> (data: Vec<u8>)
    ensures
        data@ == paged_preflight_data(function_name.spec_bytes(), args@, page),
        data@.len() == SIGHASH_LEN + args@.len() + 1,
        data@.take(8) == spec_sha256("global:preflight_".spec_bytes() + function_name.spec_bytes()).take(8),
        data@.subrange(8, data@.len() - 1) == args@,
        data@.last() == page,
{
    let mut data = preflight_instruction_data_unpaged(function_name, args);
    data.push(page);
    data
}

/// Instruction data of a preflight call without a page: the selector of
/// `preflight_<name>`, then the arguments.
pub fn preflight_instruction_data_unpaged(function_name: &str, args: &[u8]) -> (data: Vec<u8>)
    ensures
        data@ == unpaged_preflight_data(function_name.spec_bytes(), args@),
        data@.len() == SIGHASH_LEN + args@.len(),
        data@.take(8) == spec_sha256("global:preflight_".spec_bytes() + function_name.spec_bytes()).take(8),
        data@.skip(8) == args@,
{
    let preimage = preimage_of("global:preflight_", function_name);
    let mut data = sighash(preimage.as_slice());
    let mut rest = slice_to_vec(args);
    data.append(&mut rest);
    data
}

/// Instruction data of the interface call itself: the selector of `<name>`,
/// then the arguments.
pub fn interface_instruction_data(function_name: &str, args: &[u8]) -> (data: Vec<u8>)
    ensures
        data@ == interface_data(function_name.spec_bytes(), args@),
        data@.len() == SIGHASH_LEN + args@.len(),
        data@.take(8) == spec_sha256("global:".spec_bytes() + function_name.spec_bytes()).take(8),
        data@.skip(8) == args@,
{
    let preimage = preimage_of("global:", function_name);
    let mut data = sighash(preimage.as_slice());
    let mut rest = slice_to_vec(args);
    data.append(&mut rest);
    data
}

} // verus!
