use vstd::prelude::*;
use crate::accounts::{AdditionalAccounts, IAccountMeta};
use crate::keys::{Pubkey, accounts_listed, all_listed};

verus! {

/// The state of the page-by-page discovery of the accounts that an interface
/// instruction needs.
pub struct DiscoveryState {
    /// The addresses supplied to the call.
    pub remaining_keys: Seq<Pubkey>,
    /// The accounts collected so far, over all pages, in order.
    pub accounts: Seq<IAccountMeta>,
    /// Whether the last page announced more pages.
    pub has_more: bool,
    /// The next page to ask for.
    pub page: u8,
    /// Whether discovery stopped because a collected account was not supplied.
    pub missing: bool,
}

/// Collects the accounts that an interface instruction requests, one
/// preflight answer at a time. The caller performs each preflight call for
/// the page that `next_page` names and hands the answer to `record_page`.
pub struct AccountDiscovery {
    remaining_keys: Vec<Pubkey>,
    accounts: Vec<IAccountMeta>,
    has_more: bool,
    page: u8,
    missing: bool,
}

impl View for AccountDiscovery {
    type V = DiscoveryState;

    closed spec fn view(&self) -> DiscoveryState {
        DiscoveryState {
            remaining_keys: self.remaining_keys@,
            accounts: self.accounts@,
            has_more: self.has_more,
            page: self.page,
            missing: self.missing,
        }
    }
}

/// What holds of every discovery state: while discovery goes on, every
/// collected account is supplied; and it only stops for a missing account
/// while more pages were announced.
pub open spec fn discovery_invariant(s: DiscoveryState) -> bool {
    &&& !s.missing ==> accounts_listed(s.accounts, s.remaining_keys)
    &&& s.missing ==> s.has_more
}

/// Whether discovery asks for another page.
pub open spec fn discovery_continues(s: DiscoveryState) -> bool {
    s.has_more && !s.missing
}

/// The state after recording `answer`: its accounts are appended; discovery
/// stops, keeping its page, when some collected account is not supplied;
/// otherwise it takes the answer's `has_more` and moves to the next page.
pub open spec fn after_answer(s: DiscoveryState, answer: Seq<IAccountMeta>, answer_has_more: bool) -> DiscoveryState {
    let accounts = s.accounts + answer;
    let missing = !accounts_listed(accounts, s.remaining_keys);
    DiscoveryState {
        remaining_keys: s.remaining_keys,
        accounts,
        has_more: if missing { s.has_more } else { answer_has_more },
        page: if missing { s.page } else { (s.page + 1) as u8 },
        missing,
    }
}

/// Recording an answer while discovery goes on keeps the discovery
/// invariant.
pub proof fn lemma_answer_keeps_invariant(s: DiscoveryState, answer: Seq<IAccountMeta>, answer_has_more: bool)
    requires
        discovery_invariant(s),
        discovery_continues(s),
    ensures
        discovery_invariant(after_answer(s, answer, answer_has_more)),
{
}

/// Once discovery ends without a missing account, no more pages were
/// announced and every collected account is supplied.
pub proof fn lemma_ended_without_missing(s: DiscoveryState)
    requires
        discovery_invariant(s),
        !discovery_continues(s),
        !s.missing,
    ensures
        !s.has_more,
        accounts_listed(s.accounts, s.remaining_keys),
{
}

/// When every collected account is supplied, recording an answer adopts the
/// answer's own `has_more`, whatever the size of the page, appends exactly
/// its accounts and moves to the next page; so discovery goes on exactly
/// when the answer announces more pages.
pub proof fn lemma_answer_decides_continuation(s: DiscoveryState, answer: Seq<IAccountMeta>, answer_has_more: bool)
    requires
        discovery_invariant(s),
        discovery_continues(s),
        s.page < u8::MAX,
        accounts_listed(s.accounts + answer, s.remaining_keys),
    ensures
        after_answer(s, answer, answer_has_more).accounts == s.accounts + answer,
        !after_answer(s, answer, answer_has_more).missing,
        after_answer(s, answer, answer_has_more).has_more == answer_has_more,
        after_answer(s, answer, answer_has_more).page == s.page + 1,
        discovery_continues(after_answer(s, answer, answer_has_more)) == answer_has_more,
{
}

/// A collected account that is not supplied stops discovery at once,
/// keeping the page, and the result still announces more pages.
pub proof fn lemma_missing_account_stops(s: DiscoveryState, answer: Seq<IAccountMeta>, answer_has_more: bool)
    requires
        discovery_invariant(s),
        discovery_continues(s),
        !accounts_listed(s.accounts + answer, s.remaining_keys),
    ensures
        after_answer(s, answer, answer_has_more).missing,
        after_answer(s, answer, answer_has_more).has_more,
        after_answer(s, answer, answer_has_more).page == s.page,
        !discovery_continues(after_answer(s, answer, answer_has_more)),
{
}

impl AccountDiscovery {
    #[verifier::type_invariant]
    spec fn well_formed(&self) -> bool {
        discovery_invariant(self@)
    }

    /// Starts discovery over the supplied addresses, at page zero.
    pub fn new(remaining_keys: Vec<Pubkey>) -> (d: Self)
        ensures
            d@ == (DiscoveryState {
                remaining_keys: remaining_keys@,
                accounts: Seq::empty(),
                has_more: true,
                page: 0,
                missing: false,
            }),
    {
        AccountDiscovery { remaining_keys, accounts: Vec::new(), has_more: true, page: 0, missing: false }
    }

    /// The page to ask for next, or nothing once discovery has ended.
    pub fn next_page(&self) -> (p: Option<u8>)
        ensures
            p == (if discovery_continues(self@) { Some(self@.page) } else { None::<u8> }),
    {
        if self.has_more && !self.missing {
            Some(self.page)
        } else {
            None
        }
    }

    /// Whether discovery stopped because a collected account was not supplied.
    pub fn stopped_on_missing(&self) -> (r: bool)
        ensures
            r == self@.missing,
    {
        self.missing
    }

    /// Whether recording `answer` would move the page counter past its
    /// largest value.
    pub fn page_counter_overflows(&self, answer: &AdditionalAccounts) -> (r: bool)
        ensures
            r == (self@.page == u8::MAX && accounts_listed(self@.accounts + answer.accounts@, self@.remaining_keys)),
    {
        if self.page < 255 {
            return false;
        }
        let mut collected: Vec<IAccountMeta> = Vec::new();
        let mut i: usize = 0;
        while i < self.accounts.len()
            invariant
                0 <= i <= self.accounts@.len(),
                collected@ == self.accounts@.take(i as int),
            decreases self.accounts@.len() - i,
        {
            collected.push(self.accounts[i]);
            i = i + 1;
            assert(collected@ =~= self.accounts@.take(i as int));
        }
        let mut j: usize = 0;
        while j < answer.accounts.len()
            invariant
                0 <= j <= answer.accounts@.len(),
                collected@ == self.accounts@ + answer.accounts@.take(j as int),
            decreases answer.accounts@.len() - j,
        {
            collected.push(answer.accounts[j]);
            j = j + 1;
            assert(collected@ =~= self.accounts@ + answer.accounts@.take(j as int));
        }
        assert(answer.accounts@.take(answer.accounts@.len() as int) =~= answer.accounts@);
        all_listed(collected.as_slice(), self.remaining_keys.as_slice())
    }

    /// Records the answer to the preflight call for the current page.
    pub fn record_page(&mut self, answer: AdditionalAccounts)
        requires
            discovery_continues(old(self)@),
            !(old(self)@.page == u8::MAX && accounts_listed(old(self)@.accounts + answer.accounts@, old(self)@.remaining_keys)),
        ensures
            final(self)@ == after_answer(old(self)@, answer.accounts@, answer.has_more),
            final(self)@.remaining_keys == old(self)@.remaining_keys,
            final(self)@.accounts == old(self)@.accounts + answer.accounts@,
            final(self)@.missing == !accounts_listed(old(self)@.accounts + answer.accounts@, old(self)@.remaining_keys),
            !final(self)@.missing ==> final(self)@.has_more == answer.has_more,
            !final(self)@.missing ==> final(self)@.page == old(self)@.page + 1,
            final(self)@.missing ==> final(self)@.has_more && final(self)@.page == old(self)@.page,
    {
        proof {
            use_type_invariant(&*self);
        }
        let AdditionalAccounts { accounts: mut page_accounts, has_more } = answer;
        let mut accounts: Vec<IAccountMeta> = Vec::new();
        std::mem::swap(&mut accounts, &mut self.accounts);
        accounts.append(&mut page_accounts);
        let listed = all_listed(accounts.as_slice(), self.remaining_keys.as_slice());
        if !listed {
            self.missing = true;
            self.accounts = accounts;
            return;
        }
        self.accounts = accounts;
        self.has_more = has_more;
        self.page = self.page + 1;
    }

    /// Ends discovery, handing back the collected accounts and whether more
    /// pages were announced.
    pub fn finish(self) -> (result: AdditionalAccounts)
        ensures
            result.accounts@ == self@.accounts,
            result.has_more == self@.has_more,
            !result.has_more ==> accounts_listed(result.accounts@, self@.remaining_keys),
    {
        proof {
            use_type_invariant(&self);
        }
        AdditionalAccounts { accounts: self.accounts, has_more: self.has_more }
    }
}

} // verus!
