use vstd::prelude::*;

use crate::accounting::{
    can_settle, claim_fits, lemma_rounding_bound, owed, released_more, sum_entitlements, sum_of,
    total_ever, transfer_owed, withdrawn_more,
};
use crate::admission::{check_credential, credential_check, NftCredential};
use crate::error::ClaimError;
use crate::states::{
    ClaimAccount, Global, Key, LP_SHARES, MARKETING_SHARES, NFT_SHARES, TOTAL_SHARES,
};

verus! {

/// One beneficiary record under its key.
#[derive(Clone, Copy, Debug, PartialEq, Eq, Structural)]
pub struct Entry {
    pub key: Key,
    pub account: ClaimAccount,
}

/// The abstract state of a distribution: the ledger and the records in the
/// order they were created.
pub struct LedgerView {
    pub global: Global,
    pub records: Seq<Entry>,
}

/// The weights of the records, in order.
pub open spec fn shares_of(records: Seq<Entry>) -> Seq<u64> {
    records.map_values(|e: Entry| e.account.shares)
}

/// What each record has withdrawn, in order.
pub open spec fn released_of(records: Seq<Entry>) -> Seq<u64> {
    records.map_values(|e: Entry| e.account.total_released)
}

/// Where the record under `key` stands, or -1 when there is none.
pub open spec fn position(records: Seq<Entry>, key: Key) -> int
    decreases records.len(),
{
    if records.len() == 0 {
        -1
    } else if records.last().key == key {
        records.len() - 1
    } else {
        position(records.drop_last(), key)
    }
}

/// No two records share a key.
pub open spec fn keys_unique(records: Seq<Entry>) -> bool {
    forall|i: int, j: int|
        0 <= i < j < records.len() ==> #[trigger] records[i].key != #[trigger] records[j].key
}

impl LedgerView {
    /// The weights of all records together stay within the denominator.
    pub open spec fn shares_within_budget(self) -> bool {
        sum_of(shares_of(self.records)) <= TOTAL_SHARES
    }

    /// The ledger's total paid out is what the records have withdrawn together.
    pub open spec fn released_balanced(self) -> bool {
        self.global.total_released == sum_of(released_of(self.records))
    }

    /// What holds of every reachable state: keys are unique, every weight is
    /// positive, the weights fit the denominator, and the ledger's total paid
    /// out balances the records.
    pub open spec fn inv(self) -> bool {
        &&& keys_unique(self.records)
        &&& forall|i: int| 0 <= i < self.records.len() ==> #[trigger] self.records[i].account.shares > 0
        &&& self.shares_within_budget()
        &&& self.released_balanced()
    }

    /// A record exists under `key`.
    pub open spec fn has(self, key: Key) -> bool {
        position(self.records, key) >= 0
    }

    /// The record under `key`, where one exists.
    pub open spec fn account(self, key: Key) -> ClaimAccount {
        self.records[position(self.records, key)].account
    }

    /// Nothing that was paid out or withdrawn is taken back, and no record is
    /// lost or changes its key or weight.
    pub open spec fn grows_to(self, next: LedgerView) -> bool {
        &&& self.global.total_released <= next.global.total_released
        &&& self.records.len() <= next.records.len()
        &&& forall|i: int|
            0 <= i < self.records.len() ==> {
                &&& (#[trigger] next.records[i]).key == self.records[i].key
                &&& next.records[i].account.shares == self.records[i].account.shares
                &&& self.records[i].account.total_released
                    <= next.records[i].account.total_released
            }
    }

    /// The outcome of admitting the holder of `nft`.
    pub open spec fn register_result(self, nft: NftCredential) -> Result<(), ClaimError> {
        if credential_check(nft, self.global.collection) is Err {
            credential_check(nft, self.global.collection)
        } else if self.has(nft.token_account) {
            Err(ClaimError::AlreadyRegistered)
        } else if sum_of(shares_of(self.records)) + NFT_SHARES > TOTAL_SHARES {
            Err(ClaimError::SharesExhausted)
        } else {
            Ok(())
        }
    }

    /// The state after admitting the holder of `nft`.
    pub open spec fn register_next(self, nft: NftCredential) -> LedgerView {
        LedgerView {
            global: self.global,
            records: self.records.push(
                Entry {
                    key: nft.token_account,
                    account: ClaimAccount { total_released: 0, shares: NFT_SHARES },
                },
            ),
        }
    }

    /// A claim for `key` stays within 64 bits.
    pub open spec fn claim_fits(self, key: Key, vault_balance: u64) -> bool {
        self.has(key) ==> claim_fits(self.global, self.account(key), vault_balance)
    }

    /// The outcome of a claim for `key` while the vault holds `vault_balance`.
    pub open spec fn claim_result(self, key: Key, vault_balance: u64) -> Result<u64, ClaimError> {
        if !self.has(key) {
            Err(ClaimError::NotRegistered)
        } else if owed(self.global, self.account(key), vault_balance) > 0 {
            Ok(owed(self.global, self.account(key), vault_balance) as u64)
        } else {
            Err(ClaimError::EmptyValue)
        }
    }

    /// The state after a successful claim for `key`.
    pub open spec fn claim_next(self, key: Key, vault_balance: u64) -> LedgerView {
        let amount = owed(self.global, self.account(key), vault_balance) as nat;
        LedgerView {
            global: released_more(self.global, amount),
            records: self.records.update(
                position(self.records, key),
                Entry { key, account: withdrawn_more(self.account(key), amount) },
            ),
        }
    }

    /// The outcome of a claim by the holder of `nft`: the credential is
    /// checked afresh, then the claim is made for its holding account.
    pub open spec fn claim_with_nft_result(self, nft: NftCredential, vault_balance: u64) -> Result<
        u64,
        ClaimError,
    > {
        if credential_check(nft, self.global.collection) is Err {
            Err(credential_check(nft, self.global.collection)->Err_0)
        } else {
            self.claim_result(nft.token_account, vault_balance)
        }
    }
}

/// The state right after initialization.
pub open spec fn initial_view(marketing: Key, lp: Key, collection: Key, token_auth_bump: u8) -> LedgerView {
    LedgerView {
        global: Global { marketing, lp, collection, total_released: 0, token_auth_bump },
        records: seq![
            Entry { key: marketing, account: ClaimAccount { total_released: 0, shares: MARKETING_SHARES } },
            Entry { key: lp, account: ClaimAccount { total_released: 0, shares: LP_SHARES } },
        ],
    }
}

proof fn lemma_position(records: Seq<Entry>, key: Key)
    ensures
        -1 <= position(records, key) < records.len(),
        position(records, key) >= 0 ==> records[position(records, key)].key == key,
        position(records, key) == -1 ==> forall|i: int|
            0 <= i < records.len() ==> #[trigger] records[i].key != key,
    decreases records.len(),
{
    if records.len() > 0 {
        lemma_position(records.drop_last(), key);
        if records.last().key != key {
            assert forall|i: int| 0 <= i < records.len() - 1 implies #[trigger] records[i]
                == records.drop_last()[i] by {}
        }
    }
}

proof fn lemma_position_unique(records: Seq<Entry>, key: Key, i: int)
    requires
        keys_unique(records),
        0 <= i < records.len(),
        records[i].key == key,
    ensures
        position(records, key) == i,
{
    lemma_position(records, key);
    let p = position(records, key);
    if p != i {
        if p < i {
            assert(records[p].key != records[i].key);
        } else {
            assert(records[i].key != records[p].key);
        }
    }
}

proof fn lemma_sum_push(s: Seq<u64>, x: u64)
    ensures
        sum_of(s.push(x)) == sum_of(s) + x,
{
    assert(s.push(x).drop_last() =~= s);
}

proof fn lemma_sum_update(s: Seq<u64>, i: int, x: u64)
    requires
        0 <= i < s.len(),
    ensures
        sum_of(s.update(i, x)) == sum_of(s) - s[i] + x,
    decreases s.len(),
{
    let t = s.update(i, x);
    if i == s.len() - 1 {
        assert(t.drop_last() =~= s.drop_last());
    } else {
        lemma_sum_update(s.drop_last(), i, x);
        assert(t.drop_last() =~= s.drop_last().update(i, x));
    }
}

/// A distribution: the share ledger with every beneficiary record, owned by
/// whoever runs the operations on it.
pub struct Distribution {
    global: Global,
    records: Vec<Entry>,
    allocated_shares: u64,
}

impl View for Distribution {
    type V = LedgerView;

    closed spec fn view(&self) -> LedgerView {
        LedgerView { global: self.global, records: self.records@ }
    }
}

impl Distribution {
    /// The invariant of the abstract state, and the running total of the
    /// weights kept in step with the records.
    pub closed spec fn wf(&self) -> bool {
        &&& self@.inv()
        &&& self.allocated_shares == sum_of(shares_of(self.records@))
    }

    /// Sets up the ledger with the two fixed beneficiaries, marketing and
    /// liquidity, at their preset weights and with nothing paid out. The two
    /// must be distinct identities, since each has a record of its own.
    pub fn initialize(marketing: Key, lp: Key, collection: Key, token_auth_bump: u8) -> (r: Result<
        Distribution,
        ClaimError,
    >)
        ensures
            marketing == lp ==> r == Err::<Distribution, ClaimError>(ClaimError::AlreadyInitialized),
            marketing != lp ==> (r matches Ok(d) && d.wf() && d@.inv() && d@ == initial_view(
                marketing,
                lp,
                collection,
                token_auth_bump,
            )),
    {
        if marketing == lp {
            return Err(ClaimError::AlreadyInitialized);
        }
        let global = Global { marketing, lp, collection, total_released: 0, token_auth_bump };
        let mut records: Vec<Entry> = Vec::new();
        records.push(Entry { key: marketing, account: ClaimAccount::new(MARKETING_SHARES) });
        records.push(Entry { key: lp, account: ClaimAccount::new(LP_SHARES) });
        let d = Distribution { global, records, allocated_shares: MARKETING_SHARES + LP_SHARES };
        proof {
            let recs = d.records@;
            assert(recs =~= initial_view(marketing, lp, collection, token_auth_bump).records);
            let e = Seq::<u64>::empty();
            assert(shares_of(recs) =~= e.push(MARKETING_SHARES).push(LP_SHARES));
            assert(released_of(recs) =~= e.push(0u64).push(0u64));
            lemma_sum_push(e, MARKETING_SHARES);
            lemma_sum_push(e.push(MARKETING_SHARES), LP_SHARES);
            lemma_sum_push(e, 0);
            lemma_sum_push(e.push(0u64), 0);
            assert(d@.inv());
            assert(d.wf());
        }
        Ok(d)
    }

    /// Where the record under `key` stands, if there is one.
    fn find(&self, key: Key) -> (r: Option<usize>)
        requires
            self.wf(),
        ensures
            r matches Some(i) ==> i == position(self@.records, key) && i < self@.records.len(),
            r is None ==> position(self@.records, key) == -1,
    {
        let mut i: usize = 0;
        while i < self.records.len()
            invariant
                self.wf(),
                i <= self.records@.len(),
                forall|j: int| 0 <= j < i ==> #[trigger] self.records@[j].key != key,
            decreases self.records@.len() - i,
        {
            if self.records[i].key == key {
                proof {
                    lemma_position_unique(self.records@, key, i as int);
                }
                return Some(i);
            }
            i = i + 1;
        }
        proof {
            lemma_position(self.records@, key);
            if position(self.records@, key) >= 0 {
                let p = position(self.records@, key);
                assert(self.records@[p].key != key);
            }
        }
        None
    }

    /// The ledger as it stands.
    pub fn global(&self) -> (r: Global)
        ensures
            r == self@.global,
    {
        self.global
    }

    /// The record under `key`, if there is one.
    pub fn record(&self, key: Key) -> (r: Option<ClaimAccount>)
        requires
            self.wf(),
        ensures
            self@.has(key) ==> r == Some(self@.account(key)),
            !self@.has(key) ==> r is None,
    {
        match self.find(key) {
            Some(i) => Some(self.records[i].account),
            None => None,
        }
    }

    /// Admits the holder of a credential as a beneficiary of weight 3, keyed
    /// by the account that holds the credential, so the right to claim stays
    /// with that account and does not follow the credential to a new owner.
    /// The credential is checked first; then a record under that key must
    /// not exist yet, and the weights must leave room for one more holder:
    /// admission is capped so that all weights stay within the denominator.
    pub fn register(&mut self, nft: &NftCredential) -> (r: Result<(), ClaimError>)
        requires
            old(self).wf(),
        ensures
            final(self).wf(),
            final(self)@.inv(),
            r == old(self)@.register_result(*nft),
            r is Ok ==> final(self)@ == old(self)@.register_next(*nft),
            r is Err ==> final(self)@ == old(self)@,
            old(self)@.grows_to(final(self)@),
    {
        proof {
            lemma_position(self.records@, nft.token_account);
        }
        match check_credential(nft, self.global.collection) {
            Ok(()) => {},
            Err(e) => return Err(e),
        }
        let key = nft.token_account;
        if self.find(key).is_some() {
            return Err(ClaimError::AlreadyRegistered);
        }
        if self.allocated_shares > TOTAL_SHARES - NFT_SHARES {
            return Err(ClaimError::SharesExhausted);
        }
        let ghost before = self.records@;
        let entry = Entry { key, account: ClaimAccount::new(NFT_SHARES) };
        self.records.push(entry);
        self.allocated_shares = self.allocated_shares + NFT_SHARES;
        proof {
            assert(shares_of(self.records@) =~= shares_of(before).push(NFT_SHARES));
            assert(released_of(self.records@) =~= released_of(before).push(0));
            lemma_sum_push(shares_of(before), NFT_SHARES);
            lemma_sum_push(released_of(before), 0);
            assert forall|i: int, j: int|
                0 <= i < j < self.records@.len() implies #[trigger] self.records@[i].key
                != #[trigger] self.records@[j].key by {
                if j == before.len() {
                    assert(before[i].key != key);
                } else {
                    assert(before[i].key != before[j].key);
                }
            }
        }
        Ok(())
    }

    /// Tells whether a claim for `key` stays within 64 bits.
    pub fn can_claim(&self, key: Key, vault_balance: u64) -> (r: bool)
        requires
            self.wf(),
        ensures
            r == self@.claim_fits(key, vault_balance),
    {
        match self.find(key) {
            Some(i) => can_settle(&self.global, &self.records[i].account, vault_balance),
            None => true,
        }
    }

    /// Pays the beneficiary under `key` what has accrued to it, given the
    /// vault's current balance, and returns the amount; the caller transfers
    /// it out of the vault. Refused with `NotRegistered` when no record
    /// exists, and with `EmptyValue` when nothing is owed.
    pub fn claim(&mut self, key: Key, vault_balance: u64) -> (r: Result<u64, ClaimError>)
        requires
            old(self).wf(),
            old(self)@.claim_fits(key, vault_balance),
        ensures
            final(self).wf(),
            final(self)@.inv(),
            r == old(self)@.claim_result(key, vault_balance),
            r is Ok ==> final(self)@ == old(self)@.claim_next(key, vault_balance),
            r is Err ==> final(self)@ == old(self)@,
            old(self)@.grows_to(final(self)@),
    {
        proof {
            lemma_position(self.records@, key);
        }
        let i = match self.find(key) {
            Some(i) => i,
            None => return Err(ClaimError::NotRegistered),
        };
        let mut global = self.global;
        let mut account = self.records[i].account;
        match transfer_owed(&mut global, &mut account, vault_balance) {
            Ok(amount) => {
                let ghost before = self.records@;
                self.global = global;
                self.records.set(i, Entry { key, account });
                proof {
                    assert(shares_of(self.records@) =~= shares_of(before));
                    assert(released_of(self.records@) =~= released_of(before).update(
                        i as int,
                        account.total_released,
                    ));
                    lemma_sum_update(released_of(before), i as int, account.total_released);
                    assert forall|a: int, b: int|
                        0 <= a < b < self.records@.len() implies #[trigger] self.records@[a].key
                        != #[trigger] self.records@[b].key by {
                        assert(before[a].key != before[b].key);
                    }
                }
                Ok(amount)
            },
            Err(e) => Err(e),
        }
    }

    /// A claim by the holder of a credential: the credential is checked
    /// afresh as at admission, then the claim is made for the record under
    /// its holding account.
    pub fn claim_with_nft(&mut self, nft: &NftCredential, vault_balance: u64) -> (r: Result<
        u64,
        ClaimError,
    >)
        requires
            old(self).wf(),
            old(self)@.claim_fits(nft.token_account, vault_balance),
        ensures
            final(self).wf(),
            final(self)@.inv(),
            r == old(self)@.claim_with_nft_result(*nft, vault_balance),
            r is Ok ==> final(self)@ == old(self)@.claim_next(nft.token_account, vault_balance),
            r is Err ==> final(self)@ == old(self)@,
            old(self)@.grows_to(final(self)@),
    {
        match check_credential(nft, self.global.collection) {
            Ok(()) => {},
            Err(e) => return Err(e),
        }
        self.claim(nft.token_account, vault_balance)
    }
}

/// Growth composes: across any sequence of operations, neither the ledger's
/// total paid out nor any record's total withdrawn ever decreases.
pub proof fn lemma_grows_transitive(a: LedgerView, b: LedgerView, c: LedgerView)
    requires
        a.grows_to(b),
        b.grows_to(c),
    ensures
        a.grows_to(c),
{
    assert forall|i: int| 0 <= i < a.records.len() implies {
        &&& (#[trigger] c.records[i]).key == a.records[i].key
        &&& c.records[i].account.shares == a.records[i].account.shares
        &&& a.records[i].account.total_released <= c.records[i].account.total_released
    } by {
        assert(b.records[i].key == a.records[i].key);
    }
}

/// No double payment: once a claim has paid `amount` out of a vault holding
/// `vault_balance`, a second claim for the same key with no deposit in
/// between, the vault now holding `vault_balance - amount`, is refused with
/// `EmptyValue`; and it is within range, so it can be made.
pub proof fn lemma_no_double_payment(v: LedgerView, key: Key, vault_balance: u64, amount: u64)
    requires
        v.inv(),
        v.claim_fits(key, vault_balance),
        v.claim_result(key, vault_balance) == Ok::<u64, ClaimError>(amount),
        amount <= vault_balance,
    ensures
        v.claim_next(key, vault_balance).claim_fits(key, (vault_balance - amount) as u64),
        v.claim_next(key, vault_balance).claim_result(key, (vault_balance - amount) as u64)
            == Err::<u64, ClaimError>(ClaimError::EmptyValue),
{
    lemma_position(v.records, key);
    let p = position(v.records, key);
    let next = v.claim_next(key, vault_balance);
    assert(keys_unique(next.records)) by {
        assert forall|i: int, j: int|
            0 <= i < j < next.records.len() implies #[trigger] next.records[i].key
            != #[trigger] next.records[j].key by {
            assert(v.records[i].key != v.records[j].key);
        }
    }
    lemma_position_unique(next.records, key, p);
    assert(next.has(key));
    assert(total_ever(next.global, (vault_balance - amount) as u64) == total_ever(
        v.global,
        vault_balance,
    ));
}

/// Rounding never pays out more than came in: under the ledger's invariant,
/// the lifetime entitlements of all its beneficiaries together stay within
/// the total ever deposited; when the weights use up the whole denominator,
/// what rounding strands is at most one unit per beneficiary.
pub proof fn lemma_entitlements_within_deposits(v: LedgerView, total: nat)
    requires
        v.inv(),
    ensures
        sum_entitlements(total, shares_of(v.records)) <= total,
        sum_of(shares_of(v.records)) == TOTAL_SHARES ==> total <= sum_entitlements(
            total,
            shares_of(v.records),
        ) + v.records.len(),
{
    lemma_rounding_bound(total, shares_of(v.records));
}

/// Admission is exclusive: once the holder of a credential has been admitted,
/// admitting it again under the same holding account is refused with
/// `AlreadyRegistered`.
pub proof fn lemma_register_exclusive(v: LedgerView, nft: NftCredential)
    requires
        v.register_result(nft) is Ok,
    ensures
        v.register_next(nft).register_result(nft) == Err::<(), ClaimError>(
            ClaimError::AlreadyRegistered,
        ),
{
    let next = v.register_next(nft);
    assert(next.records.last().key == nft.token_account);
}

} // verus!
