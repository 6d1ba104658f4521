//! The output materializer: re-emits a consumed chain output as a
//! continuation output at the minimum required storage deposit, advancing the
//! alias state and stripping the sender feature, unless the chain identity is
//! already represented among the outputs.

use vstd::prelude::*;

use crate::error::Error;
use crate::output::AliasOutput;
use crate::output::Feature;
use crate::output::FoundryOutput;
use crate::output::InputSigningData;
use crate::output::NftOutput;
use crate::output::Output;
use crate::output::clone_native_tokens;
use crate::output::clone_unlock_conditions;
use crate::output::spec_or_from_output_id;
use crate::output::or_from_output_id;
use crate::rent::RentStructure;

verus! {

/// The feature list with every sender feature removed, order kept.
pub open spec fn features_without_sender(s: Seq<Feature>) -> Seq<Feature>
    decreases s.len(),
{
    if s.len() == 0 {
        Seq::<Feature>::empty()
    } else {
        let rest = features_without_sender(s.drop_last());
        if s.last() is Sender {
            rest
        } else {
            rest.push(s.last())
        }
    }
}

/// No feature left by the sender filter is a sender feature.
pub proof fn lemma_features_without_sender_no_sender(s: Seq<Feature>)
    ensures
        forall|k: int|
            0 <= k < features_without_sender(s).len() ==> !(features_without_sender(s)[k]
                is Sender),
    decreases s.len(),
{
    if s.len() > 0 {
        lemma_features_without_sender_no_sender(s.drop_last());
    }
}

/// Removes every sender feature from a feature list, keeping the order.
pub fn filter_sender_features(features: &Vec<Feature>) -> (r: Vec<Feature>)
    ensures
        r@ == features_without_sender(features@),
{
    let n = features.len();
    let mut r: Vec<Feature> = Vec::new();
    let mut i: usize = 0;
    while i < n
        invariant
            i <= n,
            r@ == features_without_sender(features@.take(i as int)),
        decreases n - i,
    {
        proof {
            assert(features@.take(i as int + 1).drop_last() =~= features@.take(i as int));
            assert(features@.take(i as int + 1).last() == features@[i as int]);
        }
        match features[i] {
            Feature::Sender(_) => {},
            f => {
                r.push(f);
            },
        }
        i = i + 1;
    }
    proof {
        assert(features@.take(n as int) =~= features@);
    }
    r
}

/// Whether some output in the list is an alias output carrying the given
/// chain identifier.
pub open spec fn has_alias_id(outputs: Seq<Output>, id: u64) -> bool {
    exists|k: int|
        0 <= k < outputs.len() && ((#[trigger] outputs[k]) matches Output::Alias(o) && o.alias_id == id)
}

/// Whether some output in the list is an NFT output carrying the given chain
/// identifier.
pub open spec fn has_nft_id(outputs: Seq<Output>, id: u64) -> bool {
    exists|k: int|
        0 <= k < outputs.len() && ((#[trigger] outputs[k]) matches Output::Nft(o) && o.nft_id == id)
}

/// Whether some output in the list is a foundry output carrying the given
/// identifier.
pub open spec fn has_foundry_id(outputs: Seq<Output>, id: u64) -> bool {
    exists|k: int|
        0 <= k < outputs.len() && ((#[trigger] outputs[k]) matches Output::Foundry(o) && o.foundry_id == id)
}

/// Whether the chain identity consumed by the input is already represented
/// among the outputs. A basic input carries no chain identity and needs no
/// representation.
pub open spec fn chain_continued(outputs: Seq<Output>, input: InputSigningData) -> bool {
    match input.output {
        Output::Basic(_) => true,
        Output::Alias(a) => has_alias_id(
            outputs,
            spec_or_from_output_id(a.alias_id, input.output_id),
        ),
        Output::Nft(n) => has_nft_id(outputs, spec_or_from_output_id(n.nft_id, input.output_id)),
        Output::Foundry(f) => has_foundry_id(outputs, f.foundry_id),
    }
}

/// No two outputs in the list carry the same chain identity: at most one
/// alias output per alias identifier, one NFT output per NFT identifier and
/// one foundry output per foundry identifier.
pub open spec fn unique_chain_ids(outputs: Seq<Output>) -> bool {
    forall|k: int, l: int|
        0 <= k < outputs.len() && 0 <= l < outputs.len() && k != l ==> !((#[trigger] outputs[k])
            matches Output::Alias(a) && (#[trigger] outputs[l]) matches Output::Alias(b)
            && a.alias_id == b.alias_id) && !(outputs[k] matches Output::Nft(a) && outputs[l]
            matches Output::Nft(b) && a.nft_id == b.nft_id) && !(outputs[k]
            matches Output::Foundry(a) && outputs[l] matches Output::Foundry(b) && a.foundry_id
            == b.foundry_id)
}

/// Appending an output whose chain identity is not yet represented keeps the
/// identities unique.
pub proof fn lemma_unique_chain_ids_push(outputs: Seq<Output>, o: Output)
    requires
        unique_chain_ids(outputs),
        o matches Output::Alias(a) ==> !has_alias_id(outputs, a.alias_id),
        o matches Output::Nft(n) ==> !has_nft_id(outputs, n.nft_id),
        o matches Output::Foundry(f) ==> !has_foundry_id(outputs, f.foundry_id),
    ensures
        unique_chain_ids(outputs.push(o)),
{
    assert(outputs.push(o)[outputs.len() as int] == o);
    assert forall|k: int| 0 <= k < outputs.len() implies outputs.push(o)[k] == outputs[k] by {}
}

/// Whether `out` is the continuation output of the consumed input: the same
/// chain identity (derived from the output identifier where unset), amount
/// set to exactly the minimum required storage deposit, native tokens and
/// unlock authorities kept, sender features stripped, and, for an alias, the
/// state index advanced by exactly one.
pub open spec fn is_continuation_of(out: Output, input: InputSigningData, rent: RentStructure) -> bool {
    match input.output {
        Output::Basic(_) => false,
        Output::Alias(a) => out matches Output::Alias(c) && {
            &&& c.amount as int == rent.spec_rent_cost(input.output)
            &&& c.native_tokens@ == a.native_tokens@
            &&& c.alias_id == spec_or_from_output_id(a.alias_id, input.output_id)
            &&& c.state_index == a.state_index + 1
            &&& c.state_controller == a.state_controller
            &&& c.governor == a.governor
            &&& c.features@ == features_without_sender(a.features@)
        },
        Output::Nft(n) => out matches Output::Nft(c) && {
            &&& c.amount as int == rent.spec_rent_cost(input.output)
            &&& c.native_tokens@ == n.native_tokens@
            &&& c.nft_id == spec_or_from_output_id(n.nft_id, input.output_id)
            &&& c.unlock_conditions@ == n.unlock_conditions@
            &&& c.features@ == features_without_sender(n.features@)
        },
        Output::Foundry(f) => out matches Output::Foundry(c) && {
            &&& c.amount as int == rent.spec_rent_cost(input.output)
            &&& c.native_tokens@ == f.native_tokens@
            &&& c.foundry_id == f.foundry_id
            &&& c.alias_address == f.alias_address
        },
    }
}

/// Whether the materializer must fail on this input: only an alias whose
/// state index cannot be advanced, and whose chain is not already continued,
/// cannot be rebuilt.
pub open spec fn continuation_impossible(outputs: Seq<Output>, input: InputSigningData) -> bool {
    input.output matches Output::Alias(a) && a.state_index == u32::MAX && !chain_continued(
        outputs,
        input,
    )
}

/// A list that holds a continuation output of the input has the input's
/// chain identity represented: materializing a second time against the same
/// list is a no-op.
pub proof fn lemma_materialization_idempotent(
    outputs: Seq<Output>,
    out: Output,
    input: InputSigningData,
    rent: RentStructure,
)
    requires
        is_continuation_of(out, input, rent),
    ensures
        chain_continued(outputs.push(out), input),
{
    let k = outputs.len() as int;
    assert(outputs.push(out)[k] == out);
}

/// Every continuation output holds exactly the minimum required storage
/// deposit — which is the same for the continuation as for the consumed
/// input, since the cost weighs only the kind and the token count.
pub proof fn lemma_continuation_minimum_amount(
    out: Output,
    input: InputSigningData,
    rent: RentStructure,
)
    requires
        is_continuation_of(out, input, rent),
    ensures
        out.spec_amount() as int == rent.spec_rent_cost(input.output),
        rent.spec_rent_cost(out) == rent.spec_rent_cost(input.output),
{
}

/// An alias continuation advances the state index by exactly one.
pub proof fn lemma_continuation_state_monotonic(
    out: Output,
    input: InputSigningData,
    rent: RentStructure,
)
    requires
        is_continuation_of(out, input, rent),
        input.output is Alias,
    ensures
        out matches Output::Alias(c) && input.output matches Output::Alias(a) && c.state_index
            == a.state_index + 1,
{
}

/// No continuation output carries a sender feature, whatever features the
/// consumed input carried.
pub proof fn lemma_continuation_no_sender(out: Output, input: InputSigningData, rent: RentStructure)
    requires
        is_continuation_of(out, input, rent),
    ensures
        forall|k: int| 0 <= k < out.spec_features().len() ==> !(out.spec_features()[k] is Sender),
{
    match input.output {
        Output::Alias(a) => {
            lemma_features_without_sender_no_sender(a.features@);
        },
        Output::Nft(n) => {
            lemma_features_without_sender_no_sender(n.features@);
        },
        _ => {},
    }
}

/// Whether some output in the list is an alias output carrying the given
/// chain identifier.
pub fn contains_alias_id(outputs: &Vec<Output>, id: u64) -> (r: bool)
    ensures
        r == has_alias_id(outputs@, id),
{
    let n = outputs.len();
    let mut i: usize = 0;
    while i < n
        invariant
            i <= n,
            forall|k: int|
                0 <= k < i ==> !((#[trigger] outputs@[k]) matches Output::Alias(o) && o.alias_id == id),
        decreases n - i,
    {
        match &outputs[i] {
            Output::Alias(o) => {
                if o.alias_id == id {
                    return true;
                }
            },
            _ => {},
        }
        i = i + 1;
    }
    false
}

/// Whether some output in the list is an NFT output carrying the given chain
/// identifier.
pub fn contains_nft_id(outputs: &Vec<Output>, id: u64) -> (r: bool)
    ensures
        r == has_nft_id(outputs@, id),
{
    let n = outputs.len();
    let mut i: usize = 0;
    while i < n
        invariant
            i <= n,
            forall|k: int| 0 <= k < i ==> !((#[trigger] outputs@[k]) matches Output::Nft(o) && o.nft_id == id),
        decreases n - i,
    {
        match &outputs[i] {
            Output::Nft(o) => {
                if o.nft_id == id {
                    return true;
                }
            },
            _ => {},
        }
        i = i + 1;
    }
    false
}

/// Whether some output in the list is a foundry output carrying the given
/// identifier.
pub fn contains_foundry_id(outputs: &Vec<Output>, id: u64) -> (r: bool)
    ensures
        r == has_foundry_id(outputs@, id),
{
    let n = outputs.len();
    let mut i: usize = 0;
    while i < n
        invariant
            i <= n,
            forall|k: int|
                0 <= k < i ==> !((#[trigger] outputs@[k]) matches Output::Foundry(o) && o.foundry_id == id),
        decreases n - i,
    {
        match &outputs[i] {
            Output::Foundry(o) => {
                if o.foundry_id == id {
                    return true;
                }
            },
            _ => {},
        }
        i = i + 1;
    }
    false
}

/// Ensures a consumed chain output is represented on the output side: a
/// no-op when an output with the same chain identity is already present or
/// the input is basic; otherwise appends exactly one continuation output with
/// the minimum required storage deposit, the sender feature stripped and, for
/// an alias, the state index advanced by one. Fails only when an alias state
/// index cannot be advanced.
pub fn add_output_for_input(
    input: &InputSigningData,
    rent_structure: &RentStructure,
    outputs: &mut Vec<Output>,
) -> (r: Result<(), Error>)
    ensures
        r is Ok <==> !continuation_impossible(old(outputs)@, *input),
        r is Ok && chain_continued(old(outputs)@, *input) ==> final(outputs)@ == old(outputs)@,
        r is Ok && !chain_continued(old(outputs)@, *input) ==> {
            &&& final(outputs)@.len() == old(outputs)@.len() + 1
            &&& final(outputs)@.take(old(outputs)@.len() as int) == old(outputs)@
            &&& is_continuation_of(final(outputs)@.last(), *input, *rent_structure)
        },
        r is Ok ==> chain_continued(final(outputs)@, *input),
        unique_chain_ids(old(outputs)@) ==> unique_chain_ids(final(outputs)@),
        r is Err ==> final(outputs)@ == old(outputs)@ && r == Result::<(), Error>::Err(
            Error::InvalidContinuation,
        ),
{
    let ghost orig = outputs@;
    match &input.output {
        Output::Basic(_) => Ok(()),
        Output::Alias(a) => {
            let alias_id = or_from_output_id(a.alias_id, input.output_id);
            if contains_alias_id(outputs, alias_id) {
                Ok(())
            } else {
                if a.state_index == u32::MAX {
                    return Err(Error::InvalidContinuation);
                }
                let new_output = Output::Alias(
                    AliasOutput {
                        amount: rent_structure.rent_cost(&input.output),
                        native_tokens: clone_native_tokens(&a.native_tokens),
                        alias_id,
                        state_index: a.state_index + 1,
                        state_controller: a.state_controller,
                        governor: a.governor,
                        features: filter_sender_features(&a.features),
                    },
                );
                outputs.push(new_output);
                proof {
                    assert(outputs@.take(orig.len() as int) =~= orig);
                    assert(outputs@[orig.len() as int] matches Output::Alias(o) && o.alias_id
                        == alias_id);
                    if unique_chain_ids(orig) {
                        lemma_unique_chain_ids_push(orig, outputs@.last());
                    }
                }
                Ok(())
            }
        },
        Output::Nft(nf) => {
            let nft_id = or_from_output_id(nf.nft_id, input.output_id);
            if contains_nft_id(outputs, nft_id) {
                Ok(())
            } else {
                let new_output = Output::Nft(
                    NftOutput {
                        amount: rent_structure.rent_cost(&input.output),
                        native_tokens: clone_native_tokens(&nf.native_tokens),
                        nft_id,
                        unlock_conditions: clone_unlock_conditions(&nf.unlock_conditions),
                        features: filter_sender_features(&nf.features),
                    },
                );
                outputs.push(new_output);
                proof {
                    assert(outputs@.take(orig.len() as int) =~= orig);
                    assert(outputs@[orig.len() as int] matches Output::Nft(o) && o.nft_id == nft_id);
                    if unique_chain_ids(orig) {
                        lemma_unique_chain_ids_push(orig, outputs@.last());
                    }
                }
                Ok(())
            }
        },
        Output::Foundry(f) => {
            if contains_foundry_id(outputs, f.foundry_id) {
                Ok(())
            } else {
                let new_output = Output::Foundry(
                    FoundryOutput {
                        amount: rent_structure.rent_cost(&input.output),
                        native_tokens: clone_native_tokens(&f.native_tokens),
                        foundry_id: f.foundry_id,
                        alias_address: f.alias_address,
                    },
                );
                outputs.push(new_output);
                proof {
                    assert(outputs@.take(orig.len() as int) =~= orig);
                    assert(outputs@[orig.len() as int] matches Output::Foundry(o) && o.foundry_id
                        == f.foundry_id);
                    if unique_chain_ids(orig) {
                        lemma_unique_chain_ids_push(orig, outputs@.last());
                    }
                }
                Ok(())
            }
        },
    }
}

} // verus!
