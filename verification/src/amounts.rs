//! The running "required" totals: a base amount plus a native-token balance
//! mapping, always recomputed from scratch over the current output set rather
//! than patched incrementally.

use vstd::prelude::*;

use crate::error::Error;
use crate::output::Output;
use crate::tokens::NativeTokensBuilder;
use crate::tokens::lemma_tokens_sum_nonneg;
use crate::tokens::tokens_sum;

verus! {

/// The sum of the base amounts of a list of outputs.
pub open spec fn sum_output_amounts(s: Seq<Output>) -> int
    decreases s.len(),
{
    if s.len() == 0 {
        0
    } else {
        sum_output_amounts(s.drop_last()) + s.last().spec_amount()
    }
}

/// The total quantity of a native token over a list of outputs.
pub open spec fn outputs_tokens_sum(s: Seq<Output>, id: u64) -> int
    decreases s.len(),
{
    if s.len() == 0 {
        0
    } else {
        outputs_tokens_sum(s.drop_last(), id) + tokens_sum(s.last().spec_native_tokens(), id)
    }
}

/// A prefix of an output list never sums higher than the whole list.
pub proof fn lemma_sum_output_amounts_prefix_le(s: Seq<Output>, n: int)
    requires
        0 <= n <= s.len(),
    ensures
        sum_output_amounts(s.take(n)) <= sum_output_amounts(s),
    decreases s.len() - n,
{
    if n < s.len() {
        lemma_sum_output_amounts_prefix_le(s, n + 1);
        assert(s.take(n + 1).drop_last() =~= s.take(n));
        assert(s.take(n + 1).last() == s[n]);
    } else {
        assert(s.take(n) =~= s);
    }
}

/// A prefix of an output list never holds more of a token than the whole
/// list.
pub proof fn lemma_outputs_tokens_sum_prefix_le(s: Seq<Output>, n: int, id: u64)
    requires
        0 <= n <= s.len(),
    ensures
        outputs_tokens_sum(s.take(n), id) <= outputs_tokens_sum(s, id),
    decreases s.len() - n,
{
    if n < s.len() {
        lemma_outputs_tokens_sum_prefix_le(s, n + 1, id);
        assert(s.take(n + 1).drop_last() =~= s.take(n));
        assert(s.take(n + 1).last() == s[n]);
        lemma_tokens_sum_nonneg(s[n].spec_native_tokens(), id);
    } else {
        assert(s.take(n) =~= s);
    }
}

/// The required totals: a base amount plus a native-token balance mapping,
/// the image of the accumulator over the current output set, save for
/// explicitly tracked storage-deposit-return additions.
pub struct AccumulatedOutputAmounts {
    pub amount: u64,
    pub native_tokens: NativeTokensBuilder,
}

/// Whether the accumulated totals are exactly the image of the given output
/// list: the base amount is the amount sum and every token balance is the
/// token sum.
pub open spec fn reflects_outputs(acc: AccumulatedOutputAmounts, outputs: Seq<Output>) -> bool {
    &&& acc.native_tokens.wf()
    &&& acc.amount as int == sum_output_amounts(outputs)
    &&& forall|id: u64| tokens_sum(acc.native_tokens@, id) == outputs_tokens_sum(outputs, id)
}

/// Recomputes the required totals from scratch over an output list.
/// Succeeds exactly when the amount sum and every token sum fit in an
/// amount; fails with an overflow error otherwise.
pub fn get_accumulated_output_amounts(outputs: &Vec<Output>) -> (r: Result<
    AccumulatedOutputAmounts,
    Error,
>)
    ensures
        r matches Ok(acc) ==> reflects_outputs(acc, outputs@),
        r is Err ==> r == Result::<AccumulatedOutputAmounts, Error>::Err(Error::Overflow) && (
        sum_output_amounts(outputs@) > u64::MAX || exists|id: u64|
            outputs_tokens_sum(outputs@, id) > u64::MAX),
        r is Ok <== (sum_output_amounts(outputs@) <= u64::MAX && forall|id: u64|
            outputs_tokens_sum(outputs@, id) <= u64::MAX),
{
    let mut amount: u64 = 0;
    let mut native_tokens = NativeTokensBuilder::new();
    let n = outputs.len();
    let mut i: usize = 0;
    while i < n
        invariant
            i <= n,
            native_tokens.wf(),
            amount as int == sum_output_amounts(outputs@.take(i as int)),
            forall|id: u64|
                tokens_sum(native_tokens@, id) == outputs_tokens_sum(outputs@.take(i as int), id),
        decreases n - i,
    {
        proof {
            assert(outputs@.take(i as int + 1).drop_last() =~= outputs@.take(i as int));
            assert(outputs@.take(i as int + 1).last() == outputs@[i as int]);
        }
        let o = &outputs[i];
        match amount.checked_add(o.amount()) {
            Some(sum) => {
                amount = sum;
            },
            None => {
                proof {
                    lemma_sum_output_amounts_prefix_le(outputs@, i as int + 1);
                }
                return Err(Error::Overflow);
            },
        }
        let tokens = o.native_tokens_ref();
        match native_tokens.add_native_tokens(tokens) {
            Ok(()) => {},
            Err(e) => {
                proof {
                    let bad = choose|id: u64|
                        outputs_tokens_sum(outputs@.take(i as int), id) + tokens_sum(tokens@, id)
                            > u64::MAX;
                    assert(outputs_tokens_sum(outputs@.take(i as int + 1), bad) > u64::MAX);
                    lemma_outputs_tokens_sum_prefix_le(outputs@, i as int + 1, bad);
                }
                return Err(e);
            },
        }
        i = i + 1;
    }
    proof {
        assert(outputs@.take(n as int) =~= outputs@);
    }
    Ok(AccumulatedOutputAmounts { amount, native_tokens })
}

} // verus!
