use vstd::prelude::*;

use crate::error::ContractError;

verus! {

/// The ledger's configuration: who collects the fees, and what percentage of
/// each deposit they are.
#[derive(Debug)]
pub struct State {
    pub owner: String,
    pub fees: u8,
}

impl State {
    pub open spec fn valid(&self) -> bool {
        self.fees <= 100
    }

    pub fn copy(&self) -> (r: State)
        ensures
            r.owner@ == self.owner@,
            r.fees == self.fees,
    {
        State { owner: self.owner.clone(), fees: self.fees }
    }
}

/// What one account holds in one denomination.
#[derive(Debug)]
pub struct BalanceEntry {
    pub account: String,
    pub denom: String,
    pub amount: u128,
}

impl BalanceEntry {
    pub open spec fn is_key(&self, account: Seq<char>, denom: Seq<char>) -> bool {
        self.account@ == account && self.denom@ == denom
    }
}

/// An amount to add to what one account holds in one denomination.
#[derive(Debug)]
pub struct Credit {
    pub account: String,
    pub denom: String,
    pub amount: u128,
}

/// The sum of the amounts in `credits` that go to `account` in `denom`.
pub open spec fn credited(credits: Seq<Credit>, account: Seq<char>, denom: Seq<char>) -> int
    decreases credits.len(),
{
    if credits.len() == 0 {
        0
    } else {
        let c = credits.last();
        credited(credits.drop_last(), account, denom) + if c.account@ == account && c.denom@
            == denom {
            c.amount as int
        } else {
            0
        }
    }
}

pub proof fn lemma_credited_push(credits: Seq<Credit>, c: Credit, account: Seq<char>, denom: Seq<char>)
    ensures
        credited(credits.push(c), account, denom) == credited(credits, account, denom)
            + if c.account@ == account && c.denom@ == denom {
            c.amount as int
        } else {
            0
        },
{
    assert(credits.push(c).drop_last() =~= credits);
}

proof fn lemma_credited_step(credits: Seq<Credit>, j: int, account: Seq<char>, denom: Seq<char>)
    requires
        0 <= j < credits.len(),
    ensures
        credited(credits.take(j + 1), account, denom) == credited(credits.take(j), account, denom)
            + if credits[j].account@ == account && credits[j].denom@ == denom {
            credits[j].amount as int
        } else {
            0
        },
{
    assert(credits.take(j + 1).drop_last() =~= credits.take(j));
}

proof fn lemma_credited_prefix(credits: Seq<Credit>, j: int, account: Seq<char>, denom: Seq<char>)
    requires
        0 <= j <= credits.len(),
    ensures
        0 <= credited(credits.take(j), account, denom) <= credited(credits, account, denom),
    decreases credits.len() - j,
{
    if j == credits.len() {
        assert(credits.take(j) =~= credits);
        lemma_credited_nonneg(credits, account, denom);
    } else {
        lemma_credited_step(credits, j, account, denom);
        lemma_credited_prefix(credits, j + 1, account, denom);
        lemma_credited_nonneg(credits.take(j), account, denom);
    }
}

proof fn lemma_credited_nonneg(credits: Seq<Credit>, account: Seq<char>, denom: Seq<char>)
    ensures
        0 <= credited(credits, account, denom),
    decreases credits.len(),
{
    if credits.len() > 0 {
        lemma_credited_nonneg(credits.drop_last(), account, denom);
    }
}

/// The persistent state: an optional configuration and the balance table,
/// keyed by account and denomination. An absent entry reads as zero.
#[derive(Debug)]
pub struct Ledger {
    config: Option<State>,
    entries: Vec<BalanceEntry>,
}

impl Ledger {
    /// The configuration, if any, has a fee of at most one hundred percent, and
    /// no two entries of the table share a key.
    pub closed spec fn wf(&self) -> bool {
        &&& match self.config {
            Some(s) => s.valid(),
            None => true,
        }
        &&& forall|i: int, j: int|
            0 <= i < j < self.entries@.len() ==> !#[trigger] self.entries@[i].is_key(
                self.entries@[j].account@,
                #[trigger] self.entries@[j].denom@,
            )
    }

    /// The configuration, as owner and fee percentage.
    pub closed spec fn config_of(&self) -> Option<(Seq<char>, u8)> {
        match self.config {
            Some(s) => Some((s.owner@, s.fees)),
            None => None,
        }
    }

    closed spec fn holds_key(&self, account: Seq<char>, denom: Seq<char>) -> bool {
        exists|i: int| 0 <= i < self.entries@.len() && #[trigger] self.entries@[i].is_key(account, denom)
    }

    /// What `account` holds in `denom`; zero where the table has no entry.
    pub closed spec fn balance_of(&self, account: Seq<char>, denom: Seq<char>) -> u128 {
        if self.holds_key(account, denom) {
            let i = choose|i: int|
                0 <= i < self.entries@.len() && #[trigger] self.entries@[i].is_key(account, denom);
            self.entries@[i].amount
        } else {
            0
        }
    }

    /// Every balance but the one of `account` in `denom` is as in `other`.
    pub open spec fn same_balances_except(
        &self,
        other: &Ledger,
        account: Seq<char>,
        denom: Seq<char>,
    ) -> bool {
        forall|a: Seq<char>, d: Seq<char>|
            !(a == account && d == denom) ==> #[trigger] self.balance_of(a, d) == other.balance_of(
                a,
                d,
            )
    }

    /// Every balance is as in `other`.
    pub open spec fn same_balances(&self, other: &Ledger) -> bool {
        forall|a: Seq<char>, d: Seq<char>| #[trigger] self.balance_of(a, d) == other.balance_of(a, d)
    }

    proof fn lemma_balance_at(&self, i: int)
        requires
            self.wf(),
            0 <= i < self.entries@.len(),
        ensures
            self.balance_of(self.entries@[i].account@, self.entries@[i].denom@)
                == self.entries@[i].amount,
    {
        let e = self.entries@[i];
        assert(self.entries@[i].is_key(e.account@, e.denom@));
        let j = choose|j: int|
            0 <= j < self.entries@.len() && #[trigger] self.entries@[j].is_key(e.account@, e.denom@);
        if j < i {
            assert(!self.entries@[j].is_key(self.entries@[i].account@, self.entries@[i].denom@));
        } else if i < j {
            assert(!self.entries@[i].is_key(self.entries@[j].account@, self.entries@[j].denom@));
        }
    }

    /// An empty ledger: no configuration, every balance zero.
    pub fn new() -> (r: Ledger)
        ensures
            r.wf(),
            r.config_of() is None,
            forall|a: Seq<char>, d: Seq<char>| #[trigger] r.balance_of(a, d) == 0,
    {
        Ledger { config: None, entries: Vec::new() }
    }

    /// Reads the configuration.
    pub fn load_config(&self) -> (r: Result<State, ContractError>)
        requires
            self.wf(),
        ensures
            r matches Ok(s) ==> s.valid(),
            match self.config_of() {
                Some((owner, fees)) => r matches Ok(s) && s.owner@ == owner && s.fees == fees,
                None => r == Err::<State, ContractError>(ContractError::NotInitialized),
            },
    {
        match &self.config {
            Some(s) => Ok(s.copy()),
            None => Err(ContractError::NotInitialized),
        }
    }

    /// Writes the configuration, replacing any earlier one.
    pub fn save_config(&mut self, state: State)
        requires
            old(self).wf(),
            state.valid(),
        ensures
            final(self).wf(),
            final(self).config_of() == Some((state.owner@, state.fees)),
            final(self).same_balances(old(self)),
    {
        let ghost prev = *self;
        self.config = Some(state);
        assert(self.entries@ == prev.entries@);
    }

    fn find(&self, account: &String, denom: &String) -> (r: Option<usize>)
        ensures
            match r {
                Some(i) => i < self.entries@.len() && self.entries@[i as int].is_key(
                    account@,
                    denom@,
                ),
                None => !self.holds_key(account@, denom@),
            },
    {
        let mut i: usize = 0;
        while i < self.entries.len()
            invariant
                i <= self.entries@.len(),
                forall|j: int| 0 <= j < i ==> !#[trigger] self.entries@[j].is_key(account@, denom@),
            decreases self.entries@.len() - i,
        {
            let e = &self.entries[i];
            if e.account == *account && e.denom == *denom {
                return Some(i);
            }
            i = i + 1;
        }
        None
    }

    /// What `account` holds in `denom`, zero where nothing was ever credited.
    pub fn get_balance(&self, account: &String, denom: &String) -> (r: u128)
        requires
            self.wf(),
        ensures
            r == self.balance_of(account@, denom@),
    {
        match self.find(account, denom) {
            Some(i) => {
                proof {
                    self.lemma_balance_at(i as int);
                }
                self.entries[i].amount
            },
            None => 0,
        }
    }

    /// Sets the balance of `account` in `denom` to `amount`, leaving every other
    /// balance and the configuration as they are.
    fn set_balance(&mut self, account: &String, denom: &String, amount: u128)
        requires
            old(self).wf(),
        ensures
            final(self).wf(),
            final(self).config_of() == old(self).config_of(),
            final(self).balance_of(account@, denom@) == amount,
            final(self).same_balances_except(old(self), account@, denom@),
    {
        let ghost prev = *self;
        match self.find(account, denom) {
            Some(i) => {
                self.entries[i].amount = amount;
                proof {
                    assert(self.wf()) by {
                        assert forall|p: int, q: int| 0 <= p < q < self.entries@.len() implies
                            !#[trigger] self.entries@[p].is_key(
                                self.entries@[q].account@,
                                #[trigger] self.entries@[q].denom@,
                            ) by {
                            assert(!prev.entries@[p].is_key(prev.entries@[q].account@, prev.entries@[q].denom@));
                        }
                    }
                    self.lemma_balance_at(i as int);
                    assert forall|a: Seq<char>, d: Seq<char>|
                        !(a == account@ && d == denom@) implies #[trigger] self.balance_of(a, d)
                            == prev.balance_of(a, d) by {
                        self.lemma_same_outside(&prev, i as int, a, d);
                    }
                }
            },
            None => {
                self.entries.push(BalanceEntry { account: account.clone(), denom: denom.clone(), amount });
                proof {
                    let n = prev.entries@.len() as int;
                    assert(self.wf()) by {
                        assert forall|p: int, q: int| 0 <= p < q < self.entries@.len() implies
                            !#[trigger] self.entries@[p].is_key(
                                self.entries@[q].account@,
                                #[trigger] self.entries@[q].denom@,
                            ) by {
                            if q < n {
                                assert(!prev.entries@[p].is_key(prev.entries@[q].account@, prev.entries@[q].denom@));
                            } else {
                                assert(prev.entries@[p] == self.entries@[p]);
                                if self.entries@[p].is_key(account@, denom@) {
                                    assert(prev.holds_key(account@, denom@));
                                }
                            }
                        }
                    }
                    self.lemma_balance_at(n);
                    assert forall|a: Seq<char>, d: Seq<char>|
                        !(a == account@ && d == denom@) implies #[trigger] self.balance_of(a, d)
                            == prev.balance_of(a, d) by {
                        self.lemma_same_outside(&prev, n, a, d);
                    }
                }
            },
        }
    }

    /// Where `self` differs from `prev` only at entry `i` (changed in amount or
    /// newly appended), the balances of every other key agree.
    proof fn lemma_same_outside(&self, prev: &Ledger, i: int, a: Seq<char>, d: Seq<char>)
        requires
            self.wf(),
            prev.wf(),
            0 <= i < self.entries@.len(),
            self.entries@.len() == prev.entries@.len() || (self.entries@.len() == prev.entries@.len()
                + 1 && i == prev.entries@.len()),
            forall|j: int|
                0 <= j < prev.entries@.len() && j != i ==> self.entries@[j] == prev.entries@[j],
            i < prev.entries@.len() ==> self.entries@[i].is_key(
                prev.entries@[i].account@,
                prev.entries@[i].denom@,
            ),
            !self.entries@[i].is_key(a, d),
        ensures
            self.balance_of(a, d) == prev.balance_of(a, d),
    {
        if prev.holds_key(a, d) {
            let j = choose|j: int| 0 <= j < prev.entries@.len() && #[trigger] prev.entries@[j].is_key(a, d);
            if j == i {
                assert(self.entries@[i].is_key(a, d));
            }
            assert(self.entries@[j] == prev.entries@[j]);
            prev.lemma_balance_at(j);
            self.lemma_balance_at(j);
        } else if self.holds_key(a, d) {
            let j = choose|j: int| 0 <= j < self.entries@.len() && #[trigger] self.entries@[j].is_key(a, d);
            if j != i {
                assert(prev.entries@[j].is_key(a, d));
            }
        }
    }

    /// A copy of the whole ledger.
    fn duplicate(&self) -> (r: Ledger)
        ensures
            r.config_of() == self.config_of(),
            r.entries@ == self.entries@,
    {
        let config = match &self.config {
            Some(s) => Some(s.copy()),
            None => None,
        };
        let mut entries: Vec<BalanceEntry> = Vec::new();
        let mut i: usize = 0;
        while i < self.entries.len()
            invariant
                i <= self.entries@.len(),
                entries@ == self.entries@.take(i as int),
            decreases self.entries@.len() - i,
        {
            let e = &self.entries[i];
            entries.push(BalanceEntry { account: e.account.clone(), denom: e.denom.clone(), amount: e.amount });
            proof {
                assert(entries@ =~= self.entries@.take(i + 1));
            }
            i = i + 1;
        }
        assert(entries@ =~= self.entries@);
        Ledger { config, entries }
    }

    /// Applies every credit of `credits`, or none: where some balance would not
    /// fit, the ledger is left as it was.
    pub fn apply_credits(&mut self, credits: &Vec<Credit>) -> (r: Result<(), ContractError>)
        requires
            old(self).wf(),
        ensures
            final(self).wf(),
            (forall|a: Seq<char>, d: Seq<char>|
                old(self).balance_of(a, d) + #[trigger] credited(credits@, a, d) <= u128::MAX) ==> {
                &&& r is Ok
                &&& final(self).config_of() == old(self).config_of()
                &&& forall|a: Seq<char>, d: Seq<char>|
                    #[trigger] final(self).balance_of(a, d) == old(self).balance_of(a, d) + credited(
                        credits@,
                        a,
                        d,
                    )
            },
            !(forall|a: Seq<char>, d: Seq<char>|
                old(self).balance_of(a, d) + #[trigger] credited(credits@, a, d) <= u128::MAX) ==> {
                &&& r == Err::<(), ContractError>(ContractError::ArithmeticOverflow)
                &&& *final(self) == *old(self)
            },
    {
        let mut work = self.duplicate();
        let mut j: usize = 0;
        while j < credits.len()
            invariant
                j <= credits@.len(),
                work.wf(),
                self.wf(),
                work.config_of() == self.config_of(),
                forall|a: Seq<char>, d: Seq<char>|
                    #[trigger] work.balance_of(a, d) == self.balance_of(a, d) + credited(
                        credits@.take(j as int),
                        a,
                        d,
                    ),
            decreases credits@.len() - j,
        {
            let c = &credits[j];
            let ghost before = work;
            match work.credit(&c.account, &c.denom, c.amount) {
                Ok(()) => {},
                Err(e) => {
                    proof {
                        let a = c.account@;
                        let d = c.denom@;
                        lemma_credited_step(credits@, j as int, a, d);
                        lemma_credited_prefix(credits@, j + 1, a, d);
                        assert(self.balance_of(a, d) + credited(credits@, a, d) > u128::MAX);
                    }
                    return Err(e);
                },
            }
            proof {
                assert forall|a: Seq<char>, d: Seq<char>|
                    #[trigger] work.balance_of(a, d) == self.balance_of(a, d) + credited(
                        credits@.take(j + 1),
                        a,
                        d,
                    ) by {
                    lemma_credited_step(credits@, j as int, a, d);
                    if !(a == c.account@ && d == c.denom@) {
                        assert(work.balance_of(a, d) == before.balance_of(a, d));
                    }
                }
            }
            j = j + 1;
        }
        proof {
            assert(credits@.take(j as int) =~= credits@);
            assert forall|a: Seq<char>, d: Seq<char>|
                self.balance_of(a, d) + #[trigger] credited(credits@, a, d) <= u128::MAX by {
                assert(work.balance_of(a, d) == self.balance_of(a, d) + credited(credits@, a, d));
            }
        }
        *self = work;
        Ok(())
    }

    /// Adds `amount` to what `account` holds in `denom`. Fails, changing nothing,
    /// where the sum would not fit.
    pub fn credit(&mut self, account: &String, denom: &String, amount: u128) -> (r: Result<
        (),
        ContractError,
    >)
        requires
            old(self).wf(),
        ensures
            final(self).wf(),
            final(self).config_of() == old(self).config_of(),
            old(self).balance_of(account@, denom@) + amount > u128::MAX ==> {
                &&& r == Err::<(), ContractError>(ContractError::ArithmeticOverflow)
                &&& final(self).same_balances(old(self))
            },
            old(self).balance_of(account@, denom@) + amount <= u128::MAX ==> {
                &&& r is Ok
                &&& final(self).balance_of(account@, denom@) == old(self).balance_of(
                    account@,
                    denom@,
                ) + amount
                &&& final(self).same_balances_except(old(self), account@, denom@)
            },
    {
        let current = self.get_balance(account, denom);
        match current.checked_add(amount) {
            Some(sum) => {
                self.set_balance(account, denom, sum);
                Ok(())
            },
            None => Err(ContractError::ArithmeticOverflow),
        }
    }

    /// Takes `amount` from what `account` holds in `denom`. Fails, changing
    /// nothing, where the balance is smaller than `amount`.
    pub fn debit(&mut self, account: &String, denom: &String, amount: u128) -> (r: Result<
        (),
        ContractError,
    >)
        requires
            old(self).wf(),
        ensures
            final(self).wf(),
            final(self).config_of() == old(self).config_of(),
            amount > old(self).balance_of(account@, denom@) ==> {
                &&& r == Err::<(), ContractError>(ContractError::Underflow)
                &&& final(self).same_balances(old(self))
            },
            amount <= old(self).balance_of(account@, denom@) ==> {
                &&& r is Ok
                &&& final(self).balance_of(account@, denom@) == old(self).balance_of(
                    account@,
                    denom@,
                ) - amount
                &&& final(self).same_balances_except(old(self), account@, denom@)
            },
    {
        let current = self.get_balance(account, denom);
        match current.checked_sub(amount) {
            Some(rest) => {
                self.set_balance(account, denom, rest);
                Ok(())
            },
            None => Err(ContractError::Underflow),
        }
    }
}

} // verus!
