//! The input selector: a fixed-point loop over candidate chain inputs that
//! decides per input whether it is required, re-emits its continuation
//! output via the materializer when burning is disallowed, and folds the
//! input into the running totals, repeating until a full pass adds no new
//! output.

use vstd::prelude::*;

use crate::amounts::AccumulatedOutputAmounts;
use crate::amounts::get_accumulated_output_amounts;
use crate::amounts::outputs_tokens_sum;
use crate::amounts::reflects_outputs;
use crate::amounts::sum_output_amounts;
use crate::error::Error;
use crate::idset::OutputIdSet;
use crate::materialize::add_output_for_input;
use crate::materialize::chain_continued;
use crate::materialize::continuation_impossible;
use crate::materialize::contains_alias_id;
use crate::materialize::contains_foundry_id;
use crate::materialize::contains_nft_id;
use crate::materialize::filter_sender_features;
use crate::materialize::is_continuation_of;
use crate::materialize::lemma_unique_chain_ids_push;
use crate::materialize::unique_chain_ids;
use crate::output::Address;
use crate::output::AliasOutput;
use crate::output::FoundryOutput;
use crate::output::InputSigningData;
use crate::output::NftOutput;
use crate::output::Output;
use crate::output::OutputId;
use crate::output::clone_input;
use crate::output::clone_native_tokens;
use crate::output::clone_unlock_conditions;
use crate::output::input_eq;
use crate::output::or_from_output_id;
use crate::output::spec_or_from_output_id;
use crate::rent::RentStructure;
use crate::rent::clip_u64;
use crate::tokens::NativeTokensBuilder;
use crate::tokens::lemma_tokens_sum_bounded;
use crate::tokens::tokens_sum;
use crate::unlock::output_contains_address;
use crate::unlock::sdr_not_expired;
use crate::unlock::spec_output_contains_address;
use crate::unlock::spec_sdr_not_expired;

verus! {

/// The identifier list runs in step with the input list: entry by entry, the
/// identifier is the input's output identifier.
pub open spec fn ids_match(inputs: Seq<InputSigningData>, ids: Seq<OutputId>) -> bool {
    ids.len() == inputs.len() && forall|k: int| 0 <= k < ids.len() ==> ids[k] == inputs[k].output_id
}

/// The sum of the base amounts of a list of selector inputs.
pub open spec fn inputs_sum_amounts(s: Seq<InputSigningData>) -> int
    decreases s.len(),
{
    if s.len() == 0 {
        0
    } else {
        inputs_sum_amounts(s.drop_last()) + s.last().output.spec_amount()
    }
}

/// The total quantity of a native token over a list of selector inputs.
pub open spec fn inputs_tokens_sum(s: Seq<InputSigningData>, id: u64) -> int
    decreases s.len(),
{
    if s.len() == 0 {
        0
    } else {
        inputs_tokens_sum(s.drop_last(), id) + tokens_sum(s.last().output.spec_native_tokens(), id)
    }
}

/// Appending an input adds its amount and its token balances to the sums.
pub proof fn lemma_inputs_sums_push(s: Seq<InputSigningData>, x: InputSigningData)
    ensures
        inputs_sum_amounts(s.push(x)) == inputs_sum_amounts(s) + x.output.spec_amount(),
        forall|id: u64|
            inputs_tokens_sum(s.push(x), id) == inputs_tokens_sum(s, id) + tokens_sum(
                x.output.spec_native_tokens(),
                id,
            ),
{
    assert(s.push(x).drop_last() =~= s);
}

/// The chain address consumed by an alias or NFT input, deriving the chain
/// identifier from the output identifier where unset.
pub open spec fn spec_chain_address(input: InputSigningData) -> Address {
    match input.output {
        Output::Alias(a) => Address::Alias(spec_or_from_output_id(a.alias_id, input.output_id)),
        Output::Nft(n) => Address::Nft(spec_or_from_output_id(n.nft_id, input.output_id)),
        _ => Address::Ed25519(0),
    }
}

/// Whether some output's unlock condition currently resolves to the address.
pub open spec fn referenced_in_outputs(
    outputs: Seq<Output>,
    address: Address,
    current_time: u32,
) -> bool {
    exists|k: int|
        0 <= k < outputs.len() && spec_output_contains_address(
            #[trigger] outputs[k],
            address,
            current_time,
        )
}

/// Whether some output's unlock condition currently resolves to the address.
pub fn any_output_contains_address(
    outputs: &Vec<Output>,
    address: Address,
    current_time: u32,
) -> (r: bool)
    ensures
        r == referenced_in_outputs(outputs@, address, current_time),
{
    let n = outputs.len();
    let mut i: usize = 0;
    while i < n
        invariant
            i <= n,
            forall|k: int|
                0 <= k < i ==> !spec_output_contains_address(
                    #[trigger] outputs@[k],
                    address,
                    current_time,
                ),
        decreases n - i,
    {
        if output_contains_address(&outputs[i], address, current_time) {
            return true;
        }
        i = i + 1;
    }
    false
}

/// Whether the input may be dropped without loss against the given outputs:
/// its chain is not continued by anyone, it holds exactly the minimum
/// required storage deposit, it carries no native tokens, and (for an alias
/// or NFT) its chain address unlocks nothing. A basic input is never subject
/// to the drop rule, and a foundry is never independently addressable, so
/// the reference check does not apply to it.
pub open spec fn is_droppable(
    input: InputSigningData,
    outputs: Seq<Output>,
    current_time: u32,
    rent: RentStructure,
) -> bool {
    match input.output {
        Output::Basic(_) => false,
        Output::Alias(_) | Output::Nft(_) => {
            &&& !chain_continued(outputs, input)
            &&& !referenced_in_outputs(outputs, spec_chain_address(input), current_time)
            &&& input.output.spec_amount() as int == rent.spec_rent_cost(input.output)
            &&& input.output.spec_native_tokens().len() == 0
        },
        Output::Foundry(_) => {
            &&& !chain_continued(outputs, input)
            &&& input.output.spec_amount() as int == rent.spec_rent_cost(input.output)
            &&& input.output.spec_native_tokens().len() == 0
        },
    }
}

/// How many candidates' identifiers are not yet in the added set.
pub open spec fn count_unadded(cands: Seq<InputSigningData>, added: Seq<OutputId>) -> int
    decreases cands.len(),
{
    if cands.len() == 0 {
        0
    } else {
        count_unadded(cands.drop_last(), added) + if added.contains(cands.last().output_id) {
            0int
        } else {
            1int
        }
    }
}

proof fn lemma_count_unadded_nonneg(cands: Seq<InputSigningData>, added: Seq<OutputId>)
    ensures
        count_unadded(cands, added) >= 0,
    decreases cands.len(),
{
    if cands.len() > 0 {
        lemma_count_unadded_nonneg(cands.drop_last(), added);
    }
}

proof fn lemma_count_unadded_insert(cands: Seq<InputSigningData>, added: Seq<OutputId>, x: OutputId)
    ensures
        count_unadded(cands, added.push(x)) <= count_unadded(cands, added),
    decreases cands.len(),
{
    if cands.len() > 0 {
        lemma_count_unadded_insert(cands.drop_last(), added, x);
        if added.contains(cands.last().output_id) {
            let w = choose|w: int| 0 <= w < added.len() && added[w] == cands.last().output_id;
            assert(added.push(x)[w] == cands.last().output_id);
        }
    }
}

proof fn lemma_count_unadded_insert_hit(cands: Seq<InputSigningData>, added: Seq<OutputId>, j: int)
    requires
        0 <= j < cands.len(),
        !added.contains(cands[j].output_id),
    ensures
        count_unadded(cands, added.push(cands[j].output_id)) < count_unadded(cands, added),
    decreases cands.len(),
{
    let x = cands[j].output_id;
    if j == cands.len() - 1 {
        lemma_count_unadded_insert(cands.drop_last(), added, x);
        assert(added.push(x)[added.len() as int] == x);
    } else {
        lemma_count_unadded_insert_hit(cands.drop_last(), added, j);
        if added.contains(cands.last().output_id) {
            let w = choose|w: int| 0 <= w < added.len() && added[w] == cands.last().output_id;
            assert(added.push(x)[w] == cands.last().output_id);
        }
    }
}

/// Membership in an identifier list extended by one entry.
proof fn lemma_id_contains_push(s: Seq<OutputId>, x: OutputId, y: OutputId)
    ensures
        s.push(x).contains(y) == (s.contains(y) || y == x),
{
    if s.contains(y) {
        let w = choose|w: int| 0 <= w < s.len() && s[w] == y;
        assert(s.push(x)[w] == y);
    }
    assert(s.push(x)[s.len() as int] == x);
    if s.push(x).contains(y) && y != x {
        let w = choose|w: int| 0 <= w < s.push(x).len() && s.push(x)[w] == y;
        assert(0 <= w < s.len());
        assert(s[w] == y);
    }
}

/// A continued chain stays continued when further outputs are appended.
proof fn lemma_chain_continued_push(outputs: Seq<Output>, o: Output, input: InputSigningData)
    requires
        chain_continued(outputs, input),
    ensures
        chain_continued(outputs.push(o), input),
{
    match input.output {
        Output::Basic(_) => {},
        Output::Alias(a) => {
            let id = spec_or_from_output_id(a.alias_id, input.output_id);
            let k = choose|k: int|
                0 <= k < outputs.len() && ((#[trigger] outputs[k]) matches Output::Alias(c)
                    && c.alias_id == id);
            assert(outputs.push(o)[k] == outputs[k]);
        },
        Output::Nft(n) => {
            let id = spec_or_from_output_id(n.nft_id, input.output_id);
            let k = choose|k: int|
                0 <= k < outputs.len() && ((#[trigger] outputs[k]) matches Output::Nft(c)
                    && c.nft_id == id);
            assert(outputs.push(o)[k] == outputs[k]);
        },
        Output::Foundry(f) => {
            let k = choose|k: int|
                0 <= k < outputs.len() && ((#[trigger] outputs[k]) matches Output::Foundry(c)
                    && c.foundry_id == f.foundry_id);
            assert(outputs.push(o)[k] == outputs[k]);
        },
    }
}


/// The minimum required storage deposit is never negative.
proof fn lemma_rent_cost_nonneg(rent: RentStructure, o: Output)
    ensures
        rent.spec_rent_cost(o) >= 0,
{
    let tokens: int = o.spec_native_tokens().len() as int;
    assert((rent.weight_native_token as int) * tokens >= 0) by (nonlinear_arith)
        requires
            rent.weight_native_token >= 0,
            tokens >= 0,
    ;
    let inner: int = clip_u64(rent.spec_kind_weight(o) + rent.weight_native_token * tokens);
    assert((rent.v_byte_cost as int) * inner >= 0) by (nonlinear_arith)
        requires
            rent.v_byte_cost >= 0,
            inner >= 0,
    ;
}

/// The sum of the minimum required storage deposits of a list of inputs.
pub open spec fn rents_sum(s: Seq<InputSigningData>, rent: RentStructure) -> int
    decreases s.len(),
{
    if s.len() == 0 {
        0
    } else {
        rents_sum(s.drop_last(), rent) + rent.spec_rent_cost(s.last().output)
    }
}

/// The amounts of the candidates whose identifiers are not yet selected.
spec fn unselected_amount(cands: Seq<InputSigningData>, ids: Seq<OutputId>) -> int
    decreases cands.len(),
{
    if cands.len() == 0 {
        0
    } else {
        unselected_amount(cands.drop_last(), ids) + if ids.contains(cands.last().output_id) {
            0int
        } else {
            cands.last().output.spec_amount() as int
        }
    }
}

/// The rent costs of the candidates whose identifiers are not yet added.
spec fn unadded_rent(cands: Seq<InputSigningData>, added: Seq<OutputId>, rent: RentStructure) -> int
    decreases cands.len(),
{
    if cands.len() == 0 {
        0
    } else {
        unadded_rent(cands.drop_last(), added, rent) + if added.contains(cands.last().output_id) {
            0int
        } else {
            rent.spec_rent_cost(cands.last().output)
        }
    }
}

proof fn lemma_unselected_amount_le(cands: Seq<InputSigningData>, ids: Seq<OutputId>)
    ensures
        0 <= unselected_amount(cands, ids) <= inputs_sum_amounts(cands),
    decreases cands.len(),
{
    if cands.len() > 0 {
        lemma_unselected_amount_le(cands.drop_last(), ids);
    }
}

proof fn lemma_unadded_rent_le(cands: Seq<InputSigningData>, added: Seq<OutputId>, rent: RentStructure)
    ensures
        0 <= unadded_rent(cands, added, rent) <= rents_sum(cands, rent),
    decreases cands.len(),
{
    if cands.len() > 0 {
        lemma_unadded_rent_le(cands.drop_last(), added, rent);
        lemma_rent_cost_nonneg(rent, cands.last().output);
    }
}

proof fn lemma_unselected_amount_term(cands: Seq<InputSigningData>, ids: Seq<OutputId>, j: int)
    requires
        0 <= j < cands.len(),
        !ids.contains(cands[j].output_id),
    ensures
        unselected_amount(cands, ids) >= cands[j].output.spec_amount(),
    decreases cands.len(),
{
    if j == cands.len() - 1 {
        lemma_unselected_amount_le(cands.drop_last(), ids);
    } else {
        lemma_unselected_amount_term(cands.drop_last(), ids, j);
    }
}

proof fn lemma_unadded_rent_term(
    cands: Seq<InputSigningData>,
    added: Seq<OutputId>,
    rent: RentStructure,
    j: int,
)
    requires
        0 <= j < cands.len(),
        !added.contains(cands[j].output_id),
    ensures
        unadded_rent(cands, added, rent) >= rent.spec_rent_cost(cands[j].output),
    decreases cands.len(),
{
    if j == cands.len() - 1 {
        lemma_unadded_rent_le(cands.drop_last(), added, rent);
    } else {
        lemma_unadded_rent_term(cands.drop_last(), added, rent, j);
        lemma_rent_cost_nonneg(rent, cands.last().output);
    }
}

proof fn lemma_unselected_amount_insert_hit(cands: Seq<InputSigningData>, ids: Seq<OutputId>, j: int)
    requires
        0 <= j < cands.len(),
        !ids.contains(cands[j].output_id),
        forall|a: int, b: int|
            0 <= a < cands.len() && 0 <= b < cands.len() && a != b ==> cands[a].output_id
                != cands[b].output_id,
    ensures
        unselected_amount(cands, ids.push(cands[j].output_id)) <= unselected_amount(cands, ids)
            - cands[j].output.spec_amount(),
    decreases cands.len(),
{
    let x = cands[j].output_id;
    if j == cands.len() - 1 {
        lemma_id_contains_push(ids, x, x);
        lemma_unselected_insert_mono(cands.drop_last(), ids, x);
    } else {
        lemma_unselected_amount_insert_hit(cands.drop_last(), ids, j);
        lemma_id_contains_push(ids, x, cands.last().output_id);
    }
}

proof fn lemma_unselected_insert_mono(cands: Seq<InputSigningData>, ids: Seq<OutputId>, x: OutputId)
    ensures
        unselected_amount(cands, ids.push(x)) <= unselected_amount(cands, ids),
    decreases cands.len(),
{
    if cands.len() > 0 {
        lemma_unselected_insert_mono(cands.drop_last(), ids, x);
        lemma_id_contains_push(ids, x, cands.last().output_id);
    }
}

proof fn lemma_unadded_rent_insert_hit(
    cands: Seq<InputSigningData>,
    added: Seq<OutputId>,
    rent: RentStructure,
    j: int,
)
    requires
        0 <= j < cands.len(),
        !added.contains(cands[j].output_id),
        forall|a: int, b: int|
            0 <= a < cands.len() && 0 <= b < cands.len() && a != b ==> cands[a].output_id
                != cands[b].output_id,
    ensures
        unadded_rent(cands, added.push(cands[j].output_id), rent) <= unadded_rent(
            cands,
            added,
            rent,
        ) - rent.spec_rent_cost(cands[j].output),
    decreases cands.len(),
{
    let x = cands[j].output_id;
    if j == cands.len() - 1 {
        lemma_id_contains_push(added, x, x);
        lemma_unadded_rent_insert_mono(cands.drop_last(), added, rent, x);
    } else {
        lemma_unadded_rent_insert_hit(cands.drop_last(), added, rent, j);
        lemma_id_contains_push(added, x, cands.last().output_id);
    }
}

proof fn lemma_unadded_rent_insert_mono(
    cands: Seq<InputSigningData>,
    added: Seq<OutputId>,
    rent: RentStructure,
    x: OutputId,
)
    ensures
        unadded_rent(cands, added.push(x), rent) <= unadded_rent(cands, added, rent),
    decreases cands.len(),
{
    if cands.len() > 0 {
        lemma_unadded_rent_insert_mono(cands.drop_last(), added, rent, x);
        lemma_id_contains_push(added, x, cands.last().output_id);
    }
}

/// A list of outputs none of which carries native tokens holds a zero
/// balance of every token.
proof fn lemma_outputs_tokens_sum_zero(s: Seq<Output>, id: u64)
    requires
        forall|k: int| 0 <= k < s.len() ==> (#[trigger] s[k]).spec_native_tokens().len() == 0,
    ensures
        outputs_tokens_sum(s, id) == 0,
    decreases s.len(),
{
    if s.len() > 0 {
        lemma_outputs_tokens_sum_zero(s.drop_last(), id);
        assert(tokens_sum(s.last().spec_native_tokens(), id) == 0);
    }
}

/// Whether a run of the selector cannot fail: every candidate alias can
/// advance its state, no candidate carries native tokens or an unexpired
/// storage-deposit return, every previously selected chain is already
/// continued, the given outputs carry no native tokens, and the amount sums
/// and rent-cost sums stay representable.
pub open spec fn selection_safe(
    old_amount: u64,
    old_sel: Seq<InputSigningData>,
    old_out: Seq<Output>,
    cands: Seq<InputSigningData>,
    current_time: u32,
    rent: RentStructure,
) -> bool {
    &&& forall|j: int|
        0 <= j < cands.len() ==> ((#[trigger] cands[j]).output matches Output::Alias(a)
            ==> a.state_index < u32::MAX)
    &&& forall|j: int|
        0 <= j < cands.len() ==> (#[trigger] cands[j]).output.spec_native_tokens().len() == 0
    &&& forall|j: int|
        0 <= j < cands.len() ==> spec_sdr_not_expired((#[trigger] cands[j]).output, current_time)
            is None
    &&& forall|i: int| 0 <= i < old_sel.len() ==> chain_continued(old_out, #[trigger] old_sel[i])
    &&& forall|k: int|
        0 <= k < old_out.len() ==> (#[trigger] old_out[k]).spec_native_tokens().len() == 0
    &&& old_amount + inputs_sum_amounts(cands) <= u64::MAX
    &&& sum_output_amounts(old_out) + rents_sum(cands, rent) <= u64::MAX
}

/// A referenced address stays referenced when further outputs are appended.
proof fn lemma_referenced_push(outputs: Seq<Output>, o: Output, address: Address, current_time: u32)
    requires
        referenced_in_outputs(outputs, address, current_time),
    ensures
        referenced_in_outputs(outputs.push(o), address, current_time),
{
    let k = choose|k: int|
        0 <= k < outputs.len() && spec_output_contains_address(
            #[trigger] outputs[k],
            address,
            current_time,
        );
    assert(outputs.push(o)[k] == outputs[k]);
}

/// Two equal inputs have their chains continued by the same output lists.
proof fn lemma_input_eq_chain_continued(
    outputs: Seq<Output>,
    a: InputSigningData,
    b: InputSigningData,
)
    requires
        input_eq(a, b),
    ensures
        chain_continued(outputs, a) == chain_continued(outputs, b),
{
}

/// Selects the required alias, NFT and foundry inputs: protects already
/// selected inputs from burning, then runs a fixed-point loop over the
/// candidates, re-emitting continuation outputs at the minimum required
/// storage deposit (sender features removed) for every candidate that is
/// required and not droppable, folding each selected candidate into the
/// running totals, and recomputing the required totals after every addition.
///
/// On success: the previously selected inputs and previously emitted outputs
/// are kept and only appended to; the identifier set stays in step with the
/// selected inputs; every appended input is a candidate and every appended
/// output is a continuation of a candidate or of a previously selected
/// input; the selected amount and native token totals grow by exactly the
/// sums over the appended inputs; every candidate ends selected unless
/// burning is disallowed and it is droppable against the final outputs; no
/// candidate's chain is burned unless burning is allowed or the candidate is
/// droppable; and whenever anything was newly selected the required totals
/// are exactly the accumulator's image of the final outputs.
#[verifier::rlimit(100)]
pub fn select_utxo_chain_inputs(
    selected_inputs: &mut Vec<InputSigningData>,
    selected_inputs_output_ids: &mut OutputIdSet,
    selected_input_amount: &mut u64,
    selected_input_native_tokens: &mut NativeTokensBuilder,
    outputs: &mut Vec<Output>,
    required: &mut AccumulatedOutputAmounts,
    utxo_chain_inputs: &Vec<InputSigningData>,
    allow_burning: bool,
    current_time: u32,
    rent_structure: &RentStructure,
) -> (r: Result<(), Error>)
    requires
        old(selected_inputs_output_ids).wf(),
        ids_match(old(selected_inputs)@, old(selected_inputs_output_ids)@),
        old(selected_input_native_tokens).wf(),
        forall|i: int, j: int|
            0 <= i < utxo_chain_inputs@.len() && 0 <= j < utxo_chain_inputs@.len() && i != j
                ==> utxo_chain_inputs@[i].output_id != utxo_chain_inputs@[j].output_id,
        forall|i: int, j: int|
            0 <= i < old(selected_inputs)@.len() && 0 <= j < utxo_chain_inputs@.len() && old(
                selected_inputs,
            )@[i].output_id == utxo_chain_inputs@[j].output_id ==> input_eq(
                old(selected_inputs)@[i],
                utxo_chain_inputs@[j],
            ),
    ensures
        r is Ok ==> final(selected_inputs_output_ids).wf() && ids_match(
            final(selected_inputs)@,
            final(selected_inputs_output_ids)@,
        ),
        r is Ok ==> old(selected_inputs)@.is_prefix_of(final(selected_inputs)@),
        r is Ok ==> old(outputs)@.is_prefix_of(final(outputs)@),
        r is Ok ==> forall|k: int|
            old(selected_inputs)@.len() <= k < final(selected_inputs)@.len() ==> exists|j: int|
                0 <= j < utxo_chain_inputs@.len() && input_eq(
                    #[trigger] final(selected_inputs)@[k],
                    utxo_chain_inputs@[j],
                ),
        r is Ok ==> forall|k: int|
            old(outputs)@.len() <= k < final(outputs)@.len() ==> continuation_source(
                #[trigger] final(outputs)@[k],
                old(selected_inputs)@,
                utxo_chain_inputs@,
                *rent_structure,
            ),
        r is Ok ==> *final(selected_input_amount) == *old(selected_input_amount)
            + inputs_sum_amounts(
            final(selected_inputs)@.skip(old(selected_inputs)@.len() as int),
        ),
        r is Ok ==> final(selected_input_native_tokens).wf() && forall|id: u64|
            tokens_sum(final(selected_input_native_tokens)@, id) == tokens_sum(
                old(selected_input_native_tokens)@,
                id,
            ) + inputs_tokens_sum(
                final(selected_inputs)@.skip(old(selected_inputs)@.len() as int),
                id,
            ),
        r is Ok ==> forall|j: int|
            0 <= j < utxo_chain_inputs@.len() ==> final(selected_inputs_output_ids)@.contains(
                (#[trigger] utxo_chain_inputs@[j]).output_id,
            ) || (!allow_burning && is_droppable(
                utxo_chain_inputs@[j],
                final(outputs)@,
                current_time,
                *rent_structure,
            )),
        r is Ok ==> forall|j: int|
            0 <= j < utxo_chain_inputs@.len() ==> allow_burning || chain_continued(
                final(outputs)@,
                #[trigger] utxo_chain_inputs@[j],
            ) || is_droppable(
                utxo_chain_inputs@[j],
                final(outputs)@,
                current_time,
                *rent_structure,
            ),
        r is Ok ==> final(selected_inputs_output_ids)@.len() > old(
            selected_inputs_output_ids,
        )@.len() ==> reflects_outputs(*final(required), final(outputs)@),
        r is Ok ==> final(selected_inputs_output_ids)@.len() == old(
            selected_inputs_output_ids,
        )@.len() ==> final(required).amount == old(required).amount
            && final(required).native_tokens@ == old(required).native_tokens@,
        allow_burning ==> final(outputs)@ == old(outputs)@,
        r is Ok ==> unique_chain_ids(old(outputs)@) ==> unique_chain_ids(final(outputs)@),
        r is Ok ==> forall|j: int|
            0 <= j < utxo_chain_inputs@.len() && !allow_burning && is_droppable(
                #[trigger] utxo_chain_inputs@[j],
                final(outputs)@,
                current_time,
                *rent_structure,
            ) ==> (final(selected_inputs_output_ids)@.contains(utxo_chain_inputs@[j].output_id)
                ==> old(selected_inputs_output_ids)@.contains(utxo_chain_inputs@[j].output_id)),
        r is Err ==> r == Result::<(), Error>::Err(Error::Overflow) || r == Result::<(
        ), Error>::Err(Error::InvalidContinuation),
        !allow_burning && (forall|j: int|
            0 <= j < utxo_chain_inputs@.len() ==> is_droppable(
                #[trigger] utxo_chain_inputs@[j],
                old(outputs)@,
                current_time,
                *rent_structure,
            )) && (forall|i: int|
            0 <= i < old(selected_inputs)@.len() ==> chain_continued(
                old(outputs)@,
                #[trigger] old(selected_inputs)@[i],
            )) ==> r is Ok && final(outputs)@ == old(outputs)@
            && final(selected_inputs_output_ids)@ == old(selected_inputs_output_ids)@,
        selection_safe(
            *old(selected_input_amount),
            old(selected_inputs)@,
            old(outputs)@,
            utxo_chain_inputs@,
            current_time,
            *rent_structure,
        ) ==> r is Ok,
        r == Result::<(), Error>::Err(Error::InvalidContinuation) ==> !allow_burning && ((exists|
            i: int,
        |
            0 <= i < old(selected_inputs)@.len() && ((#[trigger] old(
                selected_inputs,
            )@[i]).output matches Output::Alias(a) && a.state_index == u32::MAX)) || (exists|j: int|
            0 <= j < utxo_chain_inputs@.len() && ((#[trigger] utxo_chain_inputs@[j]).output
                matches Output::Alias(a) && a.state_index == u32::MAX))),
{
    let ghost old_sel: Seq<InputSigningData> = old(selected_inputs)@;
    let ghost old_ids: Seq<OutputId> = old(selected_inputs_output_ids)@;
    let ghost old_out: Seq<Output> = old(outputs)@;
    let ghost cands: Seq<InputSigningData> = utxo_chain_inputs@;

    let ghost quiescent: bool = !allow_burning && (forall|j: int|
        0 <= j < cands.len() ==> is_droppable(
            #[trigger] cands[j],
            old_out,
            current_time,
            *rent_structure,
        )) && (forall|i: int|
        0 <= i < old_sel.len() ==> chain_continued(old_out, #[trigger] old_sel[i]));

    let ghost safe: bool = selection_safe(
        *old(selected_input_amount),
        old_sel,
        old_out,
        cands,
        current_time,
        *rent_structure,
    );

    let mut added = OutputIdSet::new();

    // Protect the inputs selected before this run from being burned, and
    // record their identifiers so they are not processed again.
    let npre = selected_inputs.len();
    let mut i: usize = 0;
    while i < npre
        invariant
            i <= npre,
            npre == old_sel.len(),
            selected_inputs@ == old_sel,
            selected_inputs_output_ids@ == old_ids,
            *selected_input_amount == *old(selected_input_amount),
            selected_input_native_tokens@ == old(selected_input_native_tokens)@,
            required.amount == old(required).amount,
            required.native_tokens@ == old(required).native_tokens@,
            added.wf(),
            added@ == old_ids.take(i as int),
            allow_burning ==> outputs@ == old_out,
            quiescent ==> outputs@ == old_out,
            safe ==> outputs@ == old_out,
            unique_chain_ids(old_out) ==> unique_chain_ids(outputs@),
            old_out.is_prefix_of(outputs@),
            forall|k: int|
                old_out.len() <= k < outputs@.len() ==> continuation_source(
                    #[trigger] outputs@[k],
                    old_sel,
                    cands,
                    *rent_structure,
                ),
            !allow_burning ==> forall|k: int|
                0 <= k < i ==> chain_continued(outputs@, #[trigger] selected_inputs@[k]),
        decreases npre - i,
    {
        let ghost out_before: Seq<Output> = outputs@;
        if !allow_burning {
            match add_output_for_input(&selected_inputs[i], rent_structure, outputs) {
                Ok(()) => {},
                Err(e) => {
                    proof {
                        assert(continuation_impossible(out_before, old_sel[i as int]));
                        if safe {
                            assert(false);
                        }
                    }
                    return Err(e);
                },
            }
            proof {
                if outputs@.len() > out_before.len() {
                    assert(outputs@.take(out_before.len() as int) == out_before);
                    assert(outputs@ =~= out_before.push(outputs@.last()));
                }
                assert(outputs@.take(old_out.len() as int) =~= old_out);
                assert forall|k: int|
                    0 <= k < i implies chain_continued(
                    outputs@,
                    #[trigger] selected_inputs@[k],
                ) by {
                    if outputs@.len() > out_before.len() {
                        lemma_chain_continued_push(out_before, outputs@.last(), selected_inputs@[k]);
                    }
                }
            }
        }
        proof {
            assert(!old_ids.take(i as int).contains(old_ids[i as int]));
            assert(old_ids.take(i as int + 1) =~= old_ids.take(i as int).push(old_ids[i as int]));
        }
        let id_i = selected_inputs[i].output_id;
        added.insert(id_i);
        i = i + 1;
    }
    proof {
        assert(old_ids.take(npre as int) =~= old_ids);
        assert forall|j: int|
            0 <= j < cands.len() && added@.contains((#[trigger] cands[j]).output_id)
                && !allow_burning implies chain_continued(outputs@, cands[j]) by {
            let w = choose|w: int| 0 <= w < old_ids.len() && old_ids[w] == cands[j].output_id;
            assert(old_sel[w].output_id == cands[j].output_id);
            assert(input_eq(old_sel[w], cands[j]));
            assert(chain_continued(outputs@, old_sel[w]));
            lemma_input_eq_chain_continued(outputs@, old_sel[w], cands[j]);
        }
    }

    proof {
        if safe {
            lemma_unselected_amount_le(cands, selected_inputs_output_ids@);
            lemma_unadded_rent_le(cands, added@, *rent_structure);
        }
    }

    // The fixed-point loop: repeat full passes over the candidates until a
    // pass appends no output.
    let ncand = utxo_chain_inputs.len();
    let mut repeat = true;
    proof {
        lemma_count_unadded_nonneg(cands, added@);
    }
    while repeat
        invariant
            added.wf(),
            selected_inputs_output_ids.wf(),
            ids_match(selected_inputs@, selected_inputs_output_ids@),
            old_sel.is_prefix_of(selected_inputs@),
            old_out.is_prefix_of(outputs@),
            allow_burning ==> outputs@ == old_out,
            quiescent ==> outputs@ == old_out && selected_inputs_output_ids@ == old_ids && added@
                == old_ids,
            unique_chain_ids(old_out) ==> unique_chain_ids(outputs@),
            !allow_burning ==> forall|jj: int|
                0 <= jj < cands.len() && selected_inputs_output_ids@.contains(
                    (#[trigger] cands[jj]).output_id,
                ) && !old_ids.contains(cands[jj].output_id) ==> !is_droppable(
                    cands[jj],
                    outputs@,
                    current_time,
                    *rent_structure,
                ),
            safe ==> *selected_input_amount as int + unselected_amount(
                cands,
                selected_inputs_output_ids@,
            ) <= *old(selected_input_amount) + inputs_sum_amounts(cands),
            safe ==> sum_output_amounts(outputs@) + unadded_rent(cands, added@, *rent_structure)
                <= sum_output_amounts(old_out) + rents_sum(cands, *rent_structure),
            safe ==> forall|k: int|
                0 <= k < outputs@.len() ==> (#[trigger] outputs@[k]).spec_native_tokens().len()
                    == 0,
            selected_input_native_tokens.wf(),
            ncand == cands.len(),
            forall|k: int|
                old_out.len() <= k < outputs@.len() ==> continuation_source(
                    #[trigger] outputs@[k],
                    old_sel,
                    cands,
                    *rent_structure,
                ),
            forall|k: int|
                old_sel.len() <= k < selected_inputs@.len() ==> exists|j: int|
                    0 <= j < cands.len() && input_eq(
                        #[trigger] selected_inputs@[k],
                        cands[j],
                    ),
            *selected_input_amount == *old(selected_input_amount) + inputs_sum_amounts(
                selected_inputs@.skip(old_sel.len() as int),
            ),
            forall|id: u64|
                tokens_sum(selected_input_native_tokens@, id) == tokens_sum(
                    old(selected_input_native_tokens)@,
                    id,
                ) + inputs_tokens_sum(selected_inputs@.skip(old_sel.len() as int), id),
            forall|x: OutputId| added@.contains(x) ==> selected_inputs_output_ids@.contains(x),
            forall|j: int|
                0 <= j < cands.len() && added@.contains((#[trigger] cands[j]).output_id)
                    ==> allow_burning || chain_continued(outputs@, cands[j]),
            forall|j: int|
                0 <= j < cands.len() && selected_inputs_output_ids@.contains(
                    (#[trigger] cands[j]).output_id,
                ) && !added@.contains(cands[j].output_id) ==> allow_burning || chain_continued(
                    outputs@,
                    cands[j],
                ),
            selected_inputs_output_ids@.len() > old_ids.len() ==> reflects_outputs(
                *required,
                outputs@,
            ),
            selected_inputs_output_ids@.len() == old_ids.len() ==> required.amount == old(
                required,
            ).amount && required.native_tokens@ == old(required).native_tokens@
                && selected_inputs@ == old_sel,
            count_unadded(cands, added@) >= 0,
            !repeat ==> forall|jz: int|
                0 <= jz < cands.len() ==> selected_inputs_output_ids@.contains(
                    (#[trigger] cands[jz]).output_id,
                ) || (!allow_burning && is_droppable(
                    cands[jz],
                    outputs@,
                    current_time,
                    *rent_structure,
                )),
            !repeat ==> forall|jz: int|
                0 <= jz < cands.len() ==> allow_burning || chain_continued(
                    outputs@,
                    #[trigger] cands[jz],
                ) || is_droppable(cands[jz], outputs@, current_time, *rent_structure),
        decreases 2 * count_unadded(cands, added@) + if repeat {
            1int
        } else {
            0int
        },
    {
        let outputs_len_beginning = outputs.len();
        let ghost count_begin = count_unadded(cands, added@);
        let ghost added_begin = added@;

        let mut j: usize = 0;
        while j < ncand
            invariant
                j <= ncand,
                ncand == cands.len(),
                added.wf(),
                selected_inputs_output_ids.wf(),
                ids_match(selected_inputs@, selected_inputs_output_ids@),
                old_sel.is_prefix_of(selected_inputs@),
                old_out.is_prefix_of(outputs@),
                allow_burning ==> outputs@ == old_out,
                quiescent ==> outputs@ == old_out && selected_inputs_output_ids@ == old_ids
                    && added@ == old_ids,
                unique_chain_ids(old_out) ==> unique_chain_ids(outputs@),
                !allow_burning ==> forall|jj: int|
                    0 <= jj < cands.len() && selected_inputs_output_ids@.contains(
                        (#[trigger] cands[jj]).output_id,
                    ) && !old_ids.contains(cands[jj].output_id) ==> !is_droppable(
                        cands[jj],
                        outputs@,
                        current_time,
                        *rent_structure,
                    ),
                safe ==> *selected_input_amount as int + unselected_amount(
                    cands,
                    selected_inputs_output_ids@,
                ) <= *old(selected_input_amount) + inputs_sum_amounts(cands),
                safe ==> sum_output_amounts(outputs@) + unadded_rent(
                    cands,
                    added@,
                    *rent_structure,
                ) <= sum_output_amounts(old_out) + rents_sum(cands, *rent_structure),
                safe ==> forall|k: int|
                    0 <= k < outputs@.len() ==> (#[trigger] outputs@[k]).spec_native_tokens().len()
                        == 0,
                selected_input_native_tokens.wf(),
                outputs@.len() >= outputs_len_beginning,
                count_unadded(cands, added@) <= count_begin,
                outputs@.len() > outputs_len_beginning ==> count_unadded(cands, added@)
                    < count_begin,
                forall|k: int|
                    old_out.len() <= k < outputs@.len() ==> continuation_source(
                        #[trigger] outputs@[k],
                        old_sel,
                        cands,
                        *rent_structure,
                    ),
                forall|k: int|
                    old_sel.len() <= k < selected_inputs@.len() ==> exists|jj: int|
                        0 <= jj < cands.len() && input_eq(
                            #[trigger] selected_inputs@[k],
                            cands[jj],
                        ),
                *selected_input_amount == *old(selected_input_amount) + inputs_sum_amounts(
                    selected_inputs@.skip(old_sel.len() as int),
                ),
                forall|id: u64|
                    tokens_sum(selected_input_native_tokens@, id) == tokens_sum(
                        old(selected_input_native_tokens)@,
                        id,
                    ) + inputs_tokens_sum(selected_inputs@.skip(old_sel.len() as int), id),
                forall|x: OutputId| added@.contains(x) ==> selected_inputs_output_ids@.contains(x),
                forall|jj: int|
                    0 <= jj < cands.len() && added@.contains((#[trigger] cands[jj]).output_id)
                        ==> allow_burning || chain_continued(outputs@, cands[jj]),
                forall|jj: int|
                    0 <= jj < cands.len() && selected_inputs_output_ids@.contains(
                        (#[trigger] cands[jj]).output_id,
                    ) && !added@.contains(cands[jj].output_id) ==> allow_burning
                        || chain_continued(outputs@, cands[jj]),
                selected_inputs_output_ids@.len() > old_ids.len() ==> reflects_outputs(
                    *required,
                    outputs@,
                ),
                selected_inputs_output_ids@.len() == old_ids.len() ==> required.amount == old(
                    required,
                ).amount && required.native_tokens@ == old(required).native_tokens@
                    && selected_inputs@ == old_sel,
                forall|jj: int|
                    0 <= jj < j ==> outputs@.len() > outputs_len_beginning
                        || selected_inputs_output_ids@.contains(
                        (#[trigger] cands[jj]).output_id,
                    ) || (!allow_burning && is_droppable(
                        cands[jj],
                        outputs@,
                        current_time,
                        *rent_structure,
                    )),
                forall|jj: int|
                    0 <= jj < j ==> outputs@.len() > outputs_len_beginning || allow_burning
                        || chain_continued(outputs@, #[trigger] cands[jj]) || is_droppable(
                        cands[jj],
                        outputs@,
                        current_time,
                        *rent_structure,
                    ),
            decreases ncand - j,
        {
            let input = &utxo_chain_inputs[j];
            let output_id = input.output_id;

            if added.contains(output_id) {
                j = j + 1;
                continue;
            }
            let ghost out_at_head: Seq<Output> = outputs@;
            let ghost added_at_head: Seq<OutputId> = added@;

            let minimum_required_storage_deposit = rent_structure.rent_cost(&input.output);

            let mut dropped = false;
            match &input.output {
                Output::Nft(nft_input) => {
                    let nft_id = or_from_output_id(nft_input.nft_id, output_id);
                    let is_required = contains_nft_id(outputs, nft_id);
                    if !is_required && !allow_burning {
                        let nft_address = Address::Nft(nft_id);
                        let nft_required_in_unlock_condition = any_output_contains_address(
                            outputs,
                            nft_address,
                            current_time,
                        );
                        if !nft_required_in_unlock_condition && nft_input.amount
                            == minimum_required_storage_deposit && nft_input.native_tokens.len()
                            == 0 {
                            // The chain gives us no amount and no tokens and
                            // unlocks nothing: dropping it loses nothing.
                            dropped = true;
                        } else {
                            let new_output = Output::Nft(
                                NftOutput {
                                    amount: minimum_required_storage_deposit,
                                    native_tokens: clone_native_tokens(&nft_input.native_tokens),
                                    nft_id,
                                    unlock_conditions: clone_unlock_conditions(
                                        &nft_input.unlock_conditions,
                                    ),
                                    features: filter_sender_features(&nft_input.features),
                                },
                            );
                            outputs.push(new_output);
                            added.insert(output_id);
                            proof {
                                assert(outputs@.last() matches Output::Nft(c) && c.nft_id == nft_id);
                                assert(is_continuation_of(outputs@.last(), *input, *rent_structure));
                                lemma_count_unadded_insert_hit(cands, added_at_head, j as int);
                                if unique_chain_ids(old_out) {
                                    lemma_unique_chain_ids_push(out_at_head, outputs@.last());
                                }
                            }
                        }
                    }
                },
                Output::Alias(alias_input) => {
                    let alias_id = or_from_output_id(alias_input.alias_id, output_id);
                    let is_required = contains_alias_id(outputs, alias_id);
                    if !is_required && !allow_burning {
                        let alias_address = Address::Alias(alias_id);
                        let alias_required_in_unlock_condition = any_output_contains_address(
                            outputs,
                            alias_address,
                            current_time,
                        );
                        if !alias_required_in_unlock_condition && alias_input.amount
                            == minimum_required_storage_deposit && alias_input.native_tokens.len()
                            == 0 {
                            dropped = true;
                        } else {
                            if alias_input.state_index == u32::MAX {
                                proof {
                                    if safe {
                                        assert((cands[j as int].output matches Output::Alias(a)
                                            && a.state_index < u32::MAX));
                                        assert(false);
                                    }
                                }
                                return Err(Error::InvalidContinuation);
                            }
                            let new_output = Output::Alias(
                                AliasOutput {
                                    amount: minimum_required_storage_deposit,
                                    native_tokens: clone_native_tokens(&alias_input.native_tokens),
                                    alias_id,
                                    state_index: alias_input.state_index + 1,
                                    state_controller: alias_input.state_controller,
                                    governor: alias_input.governor,
                                    features: filter_sender_features(&alias_input.features),
                                },
                            );
                            outputs.push(new_output);
                            added.insert(output_id);
                            proof {
                                assert(outputs@.last() matches Output::Alias(c) && c.alias_id
                                    == alias_id);
                                assert(is_continuation_of(outputs@.last(), *input, *rent_structure));
                                lemma_count_unadded_insert_hit(cands, added_at_head, j as int);
                                if unique_chain_ids(old_out) {
                                    lemma_unique_chain_ids_push(out_at_head, outputs@.last());
                                }
                            }
                        }
                    }
                },
                Output::Foundry(foundry_input) => {
                    let is_required = contains_foundry_id(outputs, foundry_input.foundry_id);
                    if !is_required && !allow_burning {
                        if foundry_input.amount == minimum_required_storage_deposit
                            && foundry_input.native_tokens.len() == 0 {
                            dropped = true;
                        } else {
                            let new_output = Output::Foundry(
                                FoundryOutput {
                                    amount: minimum_required_storage_deposit,
                                    native_tokens: clone_native_tokens(
                                        &foundry_input.native_tokens,
                                    ),
                                    foundry_id: foundry_input.foundry_id,
                                    alias_address: foundry_input.alias_address,
                                },
                            );
                            outputs.push(new_output);
                            added.insert(output_id);
                            proof {
                                assert(outputs@.last() matches Output::Foundry(c) && c.foundry_id
                                    == foundry_input.foundry_id);
                                assert(is_continuation_of(outputs@.last(), *input, *rent_structure));
                                lemma_count_unadded_insert_hit(cands, added_at_head, j as int);
                                if unique_chain_ids(old_out) {
                                    lemma_unique_chain_ids_push(out_at_head, outputs@.last());
                                }
                            }
                        }
                    }
                },
                Output::Basic(_) => {},
            }

            if dropped {
                j = j + 1;
                continue;
            }

            proof {
                if outputs@.len() > out_at_head.len() {
                    assert(outputs@ =~= out_at_head.push(outputs@.last()));
                    assert(added@ =~= added_at_head.push(output_id));
                    if safe {
                        assert(outputs@.drop_last() =~= out_at_head);
                        assert(sum_output_amounts(outputs@) == sum_output_amounts(out_at_head)
                            + outputs@.last().spec_amount());
                        assert(outputs@.last().spec_amount() as int
                            == rent_structure.spec_rent_cost(cands[j as int].output));
                        lemma_unadded_rent_insert_hit(cands, added_at_head, *rent_structure, j as int);
                        assert forall|k: int|
                            0 <= k < outputs@.len() implies (#[trigger] outputs@[k]).spec_native_tokens().len()
                            == 0 by {
                            if k < out_at_head.len() {
                                assert(outputs@[k] == out_at_head[k]);
                            } else {
                                assert(outputs@[k] == outputs@.last());
                            }
                        }
                    }
                    assert forall|y: OutputId| #[trigger]
                        added@.contains(y) implies added_at_head.contains(y) || y
                        == output_id by {
                        lemma_id_contains_push(added_at_head, output_id, y);
                    }
                    assert(added@.contains(output_id)) by {
                        lemma_id_contains_push(added_at_head, output_id, output_id);
                    }
                    assert forall|y: OutputId| #[trigger]
                        added_at_head.contains(y) implies added@.contains(y) by {
                        lemma_id_contains_push(added_at_head, output_id, y);
                    }
                    assert forall|k: int|
                        old_out.len() <= k < outputs@.len() implies continuation_source(
                        #[trigger] outputs@[k],
                        old_sel,
                        cands,
                        *rent_structure,
                    ) by {
                        if k < out_at_head.len() {
                            assert(outputs@[k] == out_at_head[k]);
                        }
                    }
                    assert forall|jj: int|
                        0 <= jj < cands.len() && added@.contains(
                            (#[trigger] cands[jj]).output_id,
                        ) implies allow_burning || chain_continued(outputs@, cands[jj]) by {
                        if added_at_head.contains(cands[jj].output_id) {
                            if !allow_burning && chain_continued(out_at_head, cands[jj]) {
                                lemma_chain_continued_push(
                                    out_at_head,
                                    outputs@.last(),
                                    cands[jj],
                                );
                            }
                        } else {
                            assert(cands[jj].output_id == output_id);
                            assert(jj == j);
                        }
                    }
                    assert forall|jj: int|
                        0 <= jj < cands.len() && selected_inputs_output_ids@.contains(
                            (#[trigger] cands[jj]).output_id,
                        ) && !old_ids.contains(cands[jj].output_id) && !allow_burning
                        implies !is_droppable(
                        cands[jj],
                        outputs@,
                        current_time,
                        *rent_structure,
                    ) by {
                        if chain_continued(out_at_head, cands[jj]) {
                            lemma_chain_continued_push(out_at_head, outputs@.last(), cands[jj]);
                        }
                        if referenced_in_outputs(
                            out_at_head,
                            spec_chain_address(cands[jj]),
                            current_time,
                        ) {
                            lemma_referenced_push(
                                out_at_head,
                                outputs@.last(),
                                spec_chain_address(cands[jj]),
                                current_time,
                            );
                        }
                    }
                    assert forall|jj: int|
                        0 <= jj < cands.len() && selected_inputs_output_ids@.contains(
                            (#[trigger] cands[jj]).output_id,
                        ) && !added@.contains(cands[jj].output_id) implies allow_burning
                        || chain_continued(outputs@, cands[jj]) by {
                        if !added_at_head.contains(cands[jj].output_id) && !allow_burning
                            && chain_continued(out_at_head, cands[jj]) {
                            lemma_chain_continued_push(out_at_head, outputs@.last(), cands[jj]);
                        }
                    }
                }
            }

            // Selection bookkeeping: fold the input into the running totals
            // once, then refresh the required totals from scratch.
            if !selected_inputs_output_ids.contains(output_id) {
                let ghost sel_before: Seq<InputSigningData> = selected_inputs@;
                let output = &input.output;
                match selected_input_amount.checked_add(output.amount()) {
                    Some(sum) => {
                        *selected_input_amount = sum;
                    },
                    None => {
                        proof {
                            if safe {
                                lemma_unselected_amount_term(
                                    cands,
                                    selected_inputs_output_ids@,
                                    j as int,
                                );
                                assert(false);
                            }
                        }
                        return Err(Error::Overflow);
                    },
                }
                let ghost tokens_before: Seq<crate::output::NativeToken> =
                    selected_input_native_tokens@;
                match selected_input_native_tokens.add_native_tokens(output.native_tokens_ref()) {
                    Ok(()) => {},
                    Err(e) => {
                        proof {
                            if safe {
                                let bad = choose|id: u64|
                                    tokens_sum(tokens_before, id) + tokens_sum(
                                        output.spec_native_tokens(),
                                        id,
                                    ) > u64::MAX;
                                lemma_tokens_sum_bounded(tokens_before, bad);
                                assert(cands[j as int].output.spec_native_tokens().len() == 0);
                                assert(false);
                            }
                        }
                        return Err(e);
                    },
                }
                match sdr_not_expired(output, current_time) {
                    Some(sdr) => {
                        proof {
                            if safe {
                                assert(spec_sdr_not_expired(cands[j as int].output, current_time)
                                    is None);
                                assert(false);
                            }
                        }
                        // The returned part must be sent back, so it joins the
                        // required amount until the full refresh below.
                        match required.amount.checked_add(sdr.1) {
                            Some(sum) => {
                                required.amount = sum;
                            },
                            None => {
                                return Err(Error::Overflow);
                            },
                        }
                    },
                    None => {},
                }
                let ghost ids_before: Seq<OutputId> = selected_inputs_output_ids@;
                selected_inputs.push(clone_input(input));
                selected_inputs_output_ids.insert(output_id);
                proof {
                    assert forall|y: OutputId| #[trigger]
                        selected_inputs_output_ids@.contains(y) implies ids_before.contains(y) || y
                        == output_id by {
                        lemma_id_contains_push(ids_before, output_id, y);
                    }
                    assert forall|y: OutputId| #[trigger]
                        ids_before.contains(y) implies selected_inputs_output_ids@.contains(
                        y,
                    ) by {
                        lemma_id_contains_push(ids_before, output_id, y);
                    }
                    assert(selected_inputs_output_ids@.contains(output_id)) by {
                        lemma_id_contains_push(ids_before, output_id, output_id);
                    }
                    if safe {
                        lemma_unselected_amount_insert_hit(cands, ids_before, j as int);
                    }
                    assert(selected_inputs@ =~= sel_before.push(selected_inputs@.last()));
                    assert(selected_inputs@.skip(old_sel.len() as int) =~= sel_before.skip(
                        old_sel.len() as int,
                    ).push(selected_inputs@.last()));
                    lemma_inputs_sums_push(
                        sel_before.skip(old_sel.len() as int),
                        selected_inputs@.last(),
                    );
                }
                match get_accumulated_output_amounts(outputs) {
                    Ok(acc) => {
                        *required = acc;
                    },
                    Err(e) => {
                        proof {
                            if safe {
                                lemma_unadded_rent_le(cands, added@, *rent_structure);
                                assert(sum_output_amounts(outputs@) <= u64::MAX);
                                assert forall|id: u64|
                                    outputs_tokens_sum(outputs@, id) <= u64::MAX by {
                                    lemma_outputs_tokens_sum_zero(outputs@, id);
                                }
                                assert(false);
                            }
                        }
                        return Err(e);
                    },
                }
            }
            j = j + 1;
        }

        if outputs_len_beginning == outputs.len() {
            repeat = false;
        }
        proof {
            lemma_count_unadded_nonneg(cands, added@);
        }
    }
    Ok(())
}

/// Whether the output is a continuation of some previously selected input or
/// of some candidate.
pub open spec fn continuation_source(
    out: Output,
    pre: Seq<InputSigningData>,
    cands: Seq<InputSigningData>,
    rent: RentStructure,
) -> bool {
    (exists|j: int| 0 <= j < pre.len() && is_continuation_of(out, #[trigger] pre[j], rent)) || (
    exists|j: int| 0 <= j < cands.len() && is_continuation_of(out, #[trigger] cands[j], rent))
}

} // verus!
