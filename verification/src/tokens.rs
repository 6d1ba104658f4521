//! Native token balances: a builder mapping token identifier to quantity
//! with overflow-checked addition. Merging never silently drops or overflows
//! a balance.

use vstd::prelude::*;

use crate::error::Error;
use crate::output::NativeToken;

verus! {

/// The total quantity a token list assigns to a token identifier, summing
/// duplicate entries.
pub open spec fn tokens_sum(s: Seq<NativeToken>, id: u64) -> int
    decreases s.len(),
{
    if s.len() == 0 {
        0
    } else {
        tokens_sum(s.drop_last(), id) + if s.last().token_id == id {
            s.last().amount as int
        } else {
            0
        }
    }
}

/// A token list's sum for any identifier is never negative.
pub proof fn lemma_tokens_sum_nonneg(s: Seq<NativeToken>, id: u64)
    ensures
        tokens_sum(s, id) >= 0,
    decreases s.len(),
{
    if s.len() > 0 {
        lemma_tokens_sum_nonneg(s.drop_last(), id);
    }
}

/// A prefix of a token list never sums higher than the whole list.
pub proof fn lemma_tokens_sum_prefix_le(s: Seq<NativeToken>, n: int, id: u64)
    requires
        0 <= n <= s.len(),
    ensures
        tokens_sum(s.take(n), id) <= tokens_sum(s, id),
    decreases s.len() - n,
{
    if n < s.len() {
        lemma_tokens_sum_prefix_le(s, n + 1, id);
        assert(s.take(n + 1).drop_last() =~= s.take(n));
        assert(s.take(n + 1).last() == s[n]);
    } else {
        assert(s.take(n) =~= s);
    }
}

/// Extending a token list by one entry adds that entry's amount to its
/// token's sum and leaves every other sum unchanged.
pub proof fn lemma_tokens_sum_push(s: Seq<NativeToken>, t: NativeToken, id: u64)
    ensures
        tokens_sum(s.push(t), id) == tokens_sum(s, id) + if t.token_id == id {
            t.amount as int
        } else {
            0
        },
{
    assert(s.push(t).drop_last() =~= s);
}

/// In a list whose token identifiers are unique, the sum for an identifier is
/// the amount of its single entry, or zero where there is none.
pub proof fn lemma_tokens_sum_unique(s: Seq<NativeToken>, k: int)
    requires
        forall|i: int, j: int|
            0 <= i < s.len() && 0 <= j < s.len() && i != j ==> s[i].token_id != s[j].token_id,
        0 <= k < s.len(),
    ensures
        tokens_sum(s, s[k].token_id) == s[k].amount as int,
    decreases s.len(),
{
    if k == s.len() - 1 {
        lemma_tokens_sum_no_entry(s.drop_last(), s[k].token_id);
    } else {
        lemma_tokens_sum_unique(s.drop_last(), k);
    }
}

/// The sum for an identifier no entry carries is zero.
pub proof fn lemma_tokens_sum_no_entry(s: Seq<NativeToken>, id: u64)
    requires
        forall|i: int| 0 <= i < s.len() ==> s[i].token_id != id,
    ensures
        tokens_sum(s, id) == 0,
    decreases s.len(),
{
    if s.len() > 0 {
        lemma_tokens_sum_no_entry(s.drop_last(), id);
    }
}

/// In a list whose token identifiers are unique, no sum exceeds the largest
/// representable amount.
pub proof fn lemma_tokens_sum_bounded(s: Seq<NativeToken>, id: u64)
    requires
        forall|i: int, j: int|
            0 <= i < s.len() && 0 <= j < s.len() && i != j ==> s[i].token_id != s[j].token_id,
    ensures
        tokens_sum(s, id) <= u64::MAX,
{
    if exists|k: int| 0 <= k < s.len() && (#[trigger] s[k]).token_id == id {
        let k = choose|k: int| 0 <= k < s.len() && (#[trigger] s[k]).token_id == id;
        lemma_tokens_sum_unique(s, k);
    } else {
        lemma_tokens_sum_no_entry(s, id);
    }
}

/// A mapping token identifier to quantity with overflow-checked addition.
pub struct NativeTokensBuilder {
    entries: Vec<NativeToken>,
}

impl View for NativeTokensBuilder {
    type V = Seq<NativeToken>;

    closed spec fn view(&self) -> Seq<NativeToken> {
        self.entries@
    }
}

impl NativeTokensBuilder {
    /// Each token identifier appears in at most one entry.
    pub open spec fn wf(self) -> bool {
        forall|i: int, j: int|
            0 <= i < self@.len() && 0 <= j < self@.len() && i != j ==> self@[i].token_id
                != self@[j].token_id
    }

    /// An empty balance mapping.
    pub fn new() -> (r: Self)
        ensures
            r@ == Seq::<NativeToken>::empty(),
            r.wf(),
    {
        NativeTokensBuilder { entries: Vec::new() }
    }

    /// How many token identifiers hold a balance.
    pub fn len(&self) -> (n: usize)
        ensures
            n == self@.len(),
    {
        self.entries.len()
    }

    /// The balance held for a token identifier, zero where there is none.
    pub fn amount_of(&self, token_id: u64) -> (r: u64)
        requires
            self.wf(),
        ensures
            r as int == tokens_sum(self@, token_id),
    {
        let n = self.entries.len();
        let mut i: usize = 0;
        while i < n
            invariant
                n == self@.len(),
                i <= n,
                self.wf(),
                forall|k: int| 0 <= k < i ==> self@[k].token_id != token_id,
            decreases n - i,
        {
            if self.entries[i].token_id == token_id {
                proof {
                    lemma_tokens_sum_unique(self@, i as int);
                }
                return self.entries[i].amount;
            }
            i = i + 1;
        }
        proof {
            lemma_tokens_sum_no_entry(self@, token_id);
        }
        0
    }

    /// Adds one balance, failing rather than overflowing.
    pub fn add_native_token(&mut self, t: NativeToken) -> (r: Result<(), Error>)
        requires
            old(self).wf(),
        ensures
            final(self).wf(),
            r is Ok ==> forall|id: u64|
                tokens_sum(final(self)@, id) == tokens_sum(old(self)@, id) + if t.token_id == id {
                    t.amount as int
                } else {
                    0
                },
            r is Err ==> r == Result::<(), Error>::Err(Error::Overflow) && final(self)@ == old(
                self,
            )@ && tokens_sum(old(self)@, t.token_id) + t.amount > u64::MAX,
            r is Ok <== tokens_sum(old(self)@, t.token_id) + t.amount <= u64::MAX,
    {
        let ghost orig = self@;
        let n = self.entries.len();
        let mut i: usize = 0;
        while i < n
            invariant
                self@ == orig,
                n == self@.len(),
                i <= n,
                old(self).wf(),
                self.wf(),
                forall|k: int| 0 <= k < i ==> self@[k].token_id != t.token_id,
            decreases n - i,
        {
            if self.entries[i].token_id == t.token_id {
                proof {
                    lemma_tokens_sum_unique(self@, i as int);
                }
                let cur = self.entries[i].amount;
                match cur.checked_add(t.amount) {
                    Some(sum) => {
                        let updated = NativeToken { token_id: t.token_id, amount: sum };
                        self.entries.set(i, updated);
                        proof {
                            assert forall|id: u64|
                                tokens_sum(self@, id) == tokens_sum(orig, id) + if t.token_id == id {
                                    t.amount as int
                                } else {
                                    0
                                } by {
                                lemma_tokens_sum_update(orig, i as int, updated, id);
                            }
                        }
                        return Ok(());
                    },
                    None => {
                        return Err(Error::Overflow);
                    },
                }
            }
            i = i + 1;
        }
        proof {
            lemma_tokens_sum_no_entry(self@, t.token_id);
        }
        self.entries.push(t);
        proof {
            assert forall|id: u64|
                tokens_sum(self@, id) == tokens_sum(orig, id) + if t.token_id == id {
                    t.amount as int
                } else {
                    0
                } by {
                lemma_tokens_sum_push(orig, t, id);
            }
        }
        Ok(())
    }

    /// Merges a token list into the balances, failing rather than overflowing
    /// any single balance. Succeeds exactly when every merged balance fits.
    pub fn add_native_tokens(&mut self, other: &Vec<NativeToken>) -> (r: Result<(), Error>)
        requires
            old(self).wf(),
        ensures
            final(self).wf(),
            r is Ok ==> forall|id: u64|
                tokens_sum(final(self)@, id) == tokens_sum(old(self)@, id) + tokens_sum(
                    other@,
                    id,
                ),
            r is Err ==> r == Result::<(), Error>::Err(Error::Overflow) && exists|id: u64|
                tokens_sum(old(self)@, id) + tokens_sum(other@, id) > u64::MAX,
            r is Ok <== forall|id: u64|
                tokens_sum(old(self)@, id) + tokens_sum(other@, id) <= u64::MAX,
    {
        let ghost orig = self@;
        let n = other.len();
        let mut i: usize = 0;
        while i < n
            invariant
                n == other@.len(),
                i <= n,
                self.wf(),
                forall|id: u64|
                    tokens_sum(self@, id) == tokens_sum(orig, id) + tokens_sum(
                        other@.take(i as int),
                        id,
                    ),
            decreases n - i,
        {
            let t = other[i];
            proof {
                lemma_tokens_sum_prefix_le(other@, i as int + 1, t.token_id);
                assert(other@.take(i as int + 1).drop_last() =~= other@.take(i as int));
                assert(other@.take(i as int + 1).last() == other@[i as int]);
            }
            match self.add_native_token(t) {
                Ok(()) => {},
                Err(e) => {
                    proof {
                        assert(tokens_sum(orig, t.token_id) + tokens_sum(other@, t.token_id)
                            > u64::MAX);
                    }
                    return Err(e);
                },
            }
            i = i + 1;
            proof {
                assert forall|id: u64|
                    tokens_sum(self@, id) == tokens_sum(orig, id) + tokens_sum(
                        other@.take(i as int),
                        id,
                    ) by {
                    assert(other@.take(i as int).drop_last() =~= other@.take(i as int - 1));
                    assert(other@.take(i as int).last() == other@[i as int - 1]);
                }
            }
        }
        proof {
            assert(other@.take(n as int) =~= other@);
        }
        Ok(())
    }
}

/// Replacing one entry by another with the same token identifier shifts that
/// token's sum by the amount difference and leaves every other sum unchanged.
proof fn lemma_tokens_sum_update(s: Seq<NativeToken>, k: int, t: NativeToken, id: u64)
    requires
        0 <= k < s.len(),
        t.token_id == s[k].token_id,
    ensures
        tokens_sum(s.update(k, t), id) == tokens_sum(s, id) + if t.token_id == id {
            t.amount as int - s[k].amount as int
        } else {
            0
        },
    decreases s.len(),
{
    if k == s.len() - 1 {
        assert(s.update(k, t).drop_last() =~= s.drop_last());
        assert(s.update(k, t).last() == t);
    } else {
        lemma_tokens_sum_update(s.drop_last(), k, t, id);
        assert(s.update(k, t).drop_last() =~= s.drop_last().update(k, t));
        assert(s.update(k, t).last() == s.last());
    }
}

} // verus!
