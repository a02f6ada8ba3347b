use vstd::prelude::*;
use crate::keys::Pubkey;

verus! {

/// Number of accounts that one page of a request carries.
pub const MAX_ACCOUNTS: usize = 29;

/// Error code returned when a page past the end of the list is requested.
pub const INVALID_PAGE_CODE: u32 = 696969;

/// Errors raised by the library's own checks.
#[derive(Debug, Clone, Copy, PartialEq, Eq, Structural)]
pub enum InterfaceError {
    /// A program-specific error code.
    Custom(u32),
    /// The return data did not supply every requested account.
    InvalidAccountData,
}

/// An account requested by an interface program.
#[derive(Debug, Clone, Copy)]
pub struct IAccountMeta {
    pub pubkey: Pubkey,
    pub signer: bool,
    pub writable: bool,
}

/// A page of additional accounts, as returned by a preflight call.
#[derive(Debug, Clone)]
pub struct AdditionalAccounts {
    pub accounts: Vec<IAccountMeta>,
    pub has_more: bool,
}

/// A page of additional accounts together with the page number it answers.
#[derive(Debug, Clone)]
pub struct AdditionalAccountsRequest {
    pub accounts: AdditionalAccounts,
    pub page: u8,
}

/// Whether `page_to` refuses `page` on a list of `len` accounts: the page
/// start is compared with the length taken modulo 256, as a byte.
pub open spec fn page_out_of_range(len: nat, page: u8) -> bool {
    page * MAX_ACCOUNTS > len % 256
}

/// The accounts left by `page_to`: the first `page` pages are dropped, and
/// when more than a page remains, the last page's worth is cut off the end.
pub open spec fn paged_accounts(accounts: Seq<IAccountMeta>, page: u8) -> Seq<IAccountMeta> {
    let rest = accounts.skip(page * MAX_ACCOUNTS);
    if rest.len() > MAX_ACCOUNTS {
        rest.take(rest.len() - MAX_ACCOUNTS)
    } else {
        rest
    }
}

/// Paging keeps the accounts from the page start on, and only when more than
/// a page of them remains does it cut the last page's worth off the end: a
/// rest of at most one page is kept whole.
pub proof fn lemma_paged_accounts_shape(accounts: Seq<IAccountMeta>, page: u8)
    requires
        page * MAX_ACCOUNTS <= accounts.len(),
    ensures
        accounts.len() <= page * MAX_ACCOUNTS + MAX_ACCOUNTS ==> paged_accounts(accounts, page)
            == accounts.subrange(page * MAX_ACCOUNTS, accounts.len() as int),
        accounts.len() > page * MAX_ACCOUNTS + MAX_ACCOUNTS ==> paged_accounts(accounts, page)
            == accounts.subrange(page * MAX_ACCOUNTS, accounts.len() - MAX_ACCOUNTS),
{
    let start = page * MAX_ACCOUNTS;
    if accounts.len() <= start + MAX_ACCOUNTS {
        assert(paged_accounts(accounts, page) =~= accounts.subrange(start, accounts.len() as int));
    } else {
        assert(paged_accounts(accounts, page) =~= accounts.subrange(start, accounts.len() - MAX_ACCOUNTS));
    }
}

/// A page is refused exactly when its start lies past the list's length
/// taken as a byte; a page at or before the true end of the list is never
/// refused when the list is shorter than 256.
pub proof fn lemma_page_range(len: nat, page: u8)
    ensures
        page_out_of_range(len, page) <==> page * MAX_ACCOUNTS > len % 256,
        len < 256 ==> (page_out_of_range(len, page) <==> page * MAX_ACCOUNTS > len),
{
}

impl AdditionalAccounts {
    /// Moves the list to `requested_page`. The page start must fit in a byte.
    pub fn page_to(&mut self, requested_page: u8) -> (r: Result<(), InterfaceError>)
        requires
            requested_page * MAX_ACCOUNTS <= u8::MAX,
        ensures
            final(self).has_more == old(self).has_more,
            page_out_of_range(old(self).accounts@.len(), requested_page) ==> {
                &&& r == Err::<(), InterfaceError>(InterfaceError::Custom(INVALID_PAGE_CODE))
                &&& final(self).accounts@ == old(self).accounts@
            },
            !page_out_of_range(old(self).accounts@.len(), requested_page) ==> {
                &&& r is Ok
                &&& final(self).accounts@ == paged_accounts(old(self).accounts@, requested_page)
            },
            r is Ok <==> requested_page * MAX_ACCOUNTS <= old(self).accounts@.len() % 256,
            r is Ok && old(self).accounts@.len() <= requested_page * MAX_ACCOUNTS + MAX_ACCOUNTS
                ==> final(self).accounts@ == old(self).accounts@.subrange(
                requested_page * MAX_ACCOUNTS,
                old(self).accounts@.len() as int,
            ),
            r is Ok && old(self).accounts@.len() > requested_page * MAX_ACCOUNTS + MAX_ACCOUNTS
                ==> final(self).accounts@ == old(self).accounts@.subrange(
                requested_page * MAX_ACCOUNTS,
                old(self).accounts@.len() - MAX_ACCOUNTS,
            ),
    {
        let start: u8 = requested_page * 29;
        let len_byte: u8 = (self.accounts.len() % 256) as u8;
        if start > len_byte {
            return Err(InterfaceError::Custom(INVALID_PAGE_CODE));
        }
        if requested_page > 0 {
            let rest = self.accounts.split_off(start as usize);
            self.accounts = rest;
        }
        if self.accounts.len() > MAX_ACCOUNTS {
            let keep = self.accounts.len() - MAX_ACCOUNTS;
            self.accounts.truncate(keep);
        }
        assert(old(self).accounts@.skip(0) =~= old(self).accounts@);
        proof {
            lemma_paged_accounts_shape(old(self).accounts@, requested_page);
        }
        Ok(())
    }
}

/// A program instruction that knows its own name.
pub trait InterfaceInstruction {
    fn instruction_name() -> String;
}

} // verus!
