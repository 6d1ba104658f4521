use utxo_chains::amounts::get_accumulated_output_amounts;
use utxo_chains::error::Error;
use utxo_chains::idset::OutputIdSet;
use utxo_chains::materialize::add_output_for_input;
use utxo_chains::output::Address;
use utxo_chains::output::AliasOutput;
use utxo_chains::output::BasicOutput;
use utxo_chains::output::Feature;
use utxo_chains::output::FoundryOutput;
use utxo_chains::output::InputSigningData;
use utxo_chains::output::NativeToken;
use utxo_chains::output::NftOutput;
use utxo_chains::output::Output;
use utxo_chains::output::OutputId;
use utxo_chains::output::UnlockCondition;
use utxo_chains::rent::RentStructure;
use utxo_chains::select::select_utxo_chain_inputs;
use utxo_chains::tokens::NativeTokensBuilder;
use utxo_chains::unlock::output_contains_address;
use utxo_chains::unlock::sdr_not_expired;

fn rent_450k() -> RentStructure {
    RentStructure {
        v_byte_cost: 1,
        v_byte_offset: 0,
        weight_basic: 100000,
        weight_alias: 450000,
        weight_nft: 450000,
        weight_foundry: 450000,
        weight_native_token: 0,
    }
}

fn alias_input(
    alias_id: u64,
    amount: u64,
    state_index: u32,
    state_controller: Address,
    tx: u64,
) -> InputSigningData {
    InputSigningData {
        output: Output::Alias(AliasOutput {
            amount,
            native_tokens: vec![],
            alias_id,
            state_index,
            state_controller,
            governor: Address::Ed25519(99),
            features: vec![],
        }),
        output_id: OutputId { transaction_id: tx, index: 0 },
    }
}

#[test]
fn alias_above_minimum_is_reemitted_at_minimum() {
    // An alias holding more than the rent cost: one continuation output is
    // appended at exactly the minimum amount, with the state index advanced.
    let rent = rent_450k();
    let input = alias_input(7, 500000, 2, Address::Ed25519(1), 11);
    let mut selected_inputs: Vec<InputSigningData> = vec![];
    let mut ids = OutputIdSet::new();
    let mut amount: u64 = 0;
    let mut tokens = NativeTokensBuilder::new();
    let mut outputs: Vec<Output> = vec![];
    let mut required = get_accumulated_output_amounts(&outputs).unwrap();
    let candidates = vec![input];
    let r = select_utxo_chain_inputs(
        &mut selected_inputs,
        &mut ids,
        &mut amount,
        &mut tokens,
        &mut outputs,
        &mut required,
        &candidates,
        false,
        0,
        &rent,
    );
    assert!(r.is_ok());
    assert_eq!(outputs.len(), 1);
    match &outputs[0] {
        Output::Alias(a) => {
            assert_eq!(a.alias_id, 7);
            assert_eq!(a.state_index, 3);
            assert_eq!(a.amount, 450000);
            assert!(!a.features.iter().any(|f| matches!(f, Feature::Sender(_))));
        }
        _ => panic!("expected an alias continuation"),
    }
    assert_eq!(selected_inputs.len(), 1);
    assert_eq!(amount, 500000);
}

#[test]
fn alias_at_minimum_unreferenced_is_dropped() {
    // Amount already equals the rent cost, no native tokens, the alias
    // address unlocks nothing: no continuation, no selection.
    let rent = rent_450k();
    let input = alias_input(7, 450000, 2, Address::Ed25519(1), 11);
    let mut selected_inputs: Vec<InputSigningData> = vec![];
    let mut ids = OutputIdSet::new();
    let mut amount: u64 = 0;
    let mut tokens = NativeTokensBuilder::new();
    let mut outputs: Vec<Output> = vec![];
    let mut required = get_accumulated_output_amounts(&outputs).unwrap();
    let candidates = vec![input];
    let r = select_utxo_chain_inputs(
        &mut selected_inputs,
        &mut ids,
        &mut amount,
        &mut tokens,
        &mut outputs,
        &mut required,
        &candidates,
        false,
        0,
        &rent,
    );
    assert!(r.is_ok());
    assert_eq!(outputs.len(), 0);
    assert_eq!(selected_inputs.len(), 0);
    assert_eq!(amount, 0);
}

#[test]
fn second_pass_picks_up_newly_required_chain() {
    // B only becomes required once A's continuation (which unlocks via B's
    // alias address) has been appended; a single pass would miss it.
    let rent = rent_450k();
    let b = alias_input(2, 450000, 5, Address::Ed25519(3), 21);
    let a = alias_input(1, 500000, 0, Address::Alias(2), 22);
    let mut selected_inputs: Vec<InputSigningData> = vec![];
    let mut ids = OutputIdSet::new();
    let mut amount: u64 = 0;
    let mut tokens = NativeTokensBuilder::new();
    let mut outputs: Vec<Output> = vec![];
    let mut required = get_accumulated_output_amounts(&outputs).unwrap();
    let candidates = vec![b, a];
    let r = select_utxo_chain_inputs(
        &mut selected_inputs,
        &mut ids,
        &mut amount,
        &mut tokens,
        &mut outputs,
        &mut required,
        &candidates,
        false,
        0,
        &rent,
    );
    assert!(r.is_ok());
    assert_eq!(outputs.len(), 2);
    let mut found_a = false;
    let mut found_b = false;
    for o in &outputs {
        if let Output::Alias(al) = o {
            if al.alias_id == 1 {
                found_a = true;
            }
            if al.alias_id == 2 {
                found_b = true;
                assert_eq!(al.state_index, 6);
                assert_eq!(al.amount, 450000);
            }
        }
    }
    assert!(found_a && found_b);
    assert_eq!(selected_inputs.len(), 2);
    assert_eq!(amount, 950000);
}

#[test]
fn required_totals_reflect_final_outputs() {
    // After the loop terminates, recomputing the accumulator independently
    // over the final outputs yields exactly the stored required totals.
    let rent = rent_450k();
    let input = alias_input(7, 500000, 2, Address::Ed25519(1), 11);
    let mut selected_inputs: Vec<InputSigningData> = vec![];
    let mut ids = OutputIdSet::new();
    let mut amount: u64 = 0;
    let mut tokens = NativeTokensBuilder::new();
    let mut outputs: Vec<Output> = vec![];
    let mut required = get_accumulated_output_amounts(&outputs).unwrap();
    let candidates = vec![input];
    select_utxo_chain_inputs(
        &mut selected_inputs,
        &mut ids,
        &mut amount,
        &mut tokens,
        &mut outputs,
        &mut required,
        &candidates,
        false,
        0,
        &rent,
    )
    .unwrap();
    let recomputed = get_accumulated_output_amounts(&outputs).unwrap();
    assert_eq!(required.amount, recomputed.amount);
    assert_eq!(required.amount, 450000);
}

#[test]
fn materializer_is_idempotent() {
    let rent = rent_450k();
    let input = alias_input(7, 500000, 2, Address::Ed25519(1), 11);
    let mut outputs: Vec<Output> = vec![];
    add_output_for_input(&input, &rent, &mut outputs).unwrap();
    assert_eq!(outputs.len(), 1);
    add_output_for_input(&input, &rent, &mut outputs).unwrap();
    assert_eq!(outputs.len(), 1);
}

#[test]
fn materializer_strips_sender_feature() {
    let rent = rent_450k();
    let input = InputSigningData {
        output: Output::Nft(NftOutput {
            amount: 500000,
            native_tokens: vec![],
            nft_id: 4,
            unlock_conditions: vec![UnlockCondition::Addr(Address::Ed25519(8))],
            features: vec![Feature::Sender(Address::Ed25519(5)), Feature::Metadata(77)],
        }),
        output_id: OutputId { transaction_id: 3, index: 1 },
    };
    let mut outputs: Vec<Output> = vec![];
    add_output_for_input(&input, &rent, &mut outputs).unwrap();
    match &outputs[0] {
        Output::Nft(n) => {
            assert_eq!(n.nft_id, 4);
            assert_eq!(n.amount, 450000);
            assert_eq!(n.features, vec![Feature::Metadata(77)]);
        }
        _ => panic!("expected an NFT continuation"),
    }
}

#[test]
fn unset_chain_id_is_derived_from_output_id() {
    let rent = rent_450k();
    let input = alias_input(0, 500000, 0, Address::Ed25519(1), 40);
    let mut outputs: Vec<Output> = vec![];
    add_output_for_input(&input, &rent, &mut outputs).unwrap();
    match &outputs[0] {
        Output::Alias(a) => {
            // transaction 40, index 0: the derived identifier is 40 ^ 1.
            assert_eq!(a.alias_id, 40 ^ 1);
        }
        _ => panic!("expected an alias continuation"),
    }
}

#[test]
fn state_index_overflow_is_an_error() {
    let rent = rent_450k();
    let input = alias_input(7, 500000, u32::MAX, Address::Ed25519(1), 11);
    let mut outputs: Vec<Output> = vec![];
    let r = add_output_for_input(&input, &rent, &mut outputs);
    assert_eq!(r, Err(Error::InvalidContinuation));
    assert_eq!(outputs.len(), 0);
}

#[test]
fn foundry_at_minimum_is_dropped_even_when_referenced() {
    // A foundry is never independently addressable: the unlock-condition
    // reference check does not apply to it, unlike alias and NFT inputs.
    let rent = rent_450k();
    let foundry = InputSigningData {
        output: Output::Foundry(FoundryOutput {
            amount: 450000,
            native_tokens: vec![],
            foundry_id: 13,
            alias_address: Address::Alias(1),
        }),
        output_id: OutputId { transaction_id: 6, index: 2 },
    };
    let mut selected_inputs: Vec<InputSigningData> = vec![];
    let mut ids = OutputIdSet::new();
    let mut amount: u64 = 0;
    let mut tokens = NativeTokensBuilder::new();
    // An output referencing the controlling alias address does not make the
    // foundry required.
    let mut outputs: Vec<Output> = vec![Output::Basic(BasicOutput {
        amount: 100,
        native_tokens: vec![],
        unlock_conditions: vec![UnlockCondition::Addr(Address::Alias(1))],
        features: vec![],
    })];
    let mut required = get_accumulated_output_amounts(&outputs).unwrap();
    let candidates = vec![foundry];
    let r = select_utxo_chain_inputs(
        &mut selected_inputs,
        &mut ids,
        &mut amount,
        &mut tokens,
        &mut outputs,
        &mut required,
        &candidates,
        false,
        0,
        &rent,
    );
    assert!(r.is_ok());
    assert_eq!(outputs.len(), 1);
    assert_eq!(selected_inputs.len(), 0);
}

#[test]
fn alias_at_minimum_but_referenced_is_kept() {
    // Same droppable shape as the foundry case, but an alias address that
    // unlocks something keeps its chain alive.
    let rent = rent_450k();
    let input = alias_input(1, 450000, 0, Address::Ed25519(2), 30);
    let mut selected_inputs: Vec<InputSigningData> = vec![];
    let mut ids = OutputIdSet::new();
    let mut amount: u64 = 0;
    let mut tokens = NativeTokensBuilder::new();
    let mut outputs: Vec<Output> = vec![Output::Basic(BasicOutput {
        amount: 100,
        native_tokens: vec![],
        unlock_conditions: vec![UnlockCondition::Addr(Address::Alias(1))],
        features: vec![],
    })];
    let mut required = get_accumulated_output_amounts(&outputs).unwrap();
    let candidates = vec![input];
    let r = select_utxo_chain_inputs(
        &mut selected_inputs,
        &mut ids,
        &mut amount,
        &mut tokens,
        &mut outputs,
        &mut required,
        &candidates,
        false,
        0,
        &rent,
    );
    assert!(r.is_ok());
    assert_eq!(outputs.len(), 2);
    assert_eq!(selected_inputs.len(), 1);
}

#[test]
fn burning_allowed_emits_no_continuations() {
    let rent = rent_450k();
    let input = alias_input(7, 500000, 2, Address::Ed25519(1), 11);
    let mut selected_inputs: Vec<InputSigningData> = vec![];
    let mut ids = OutputIdSet::new();
    let mut amount: u64 = 0;
    let mut tokens = NativeTokensBuilder::new();
    let mut outputs: Vec<Output> = vec![];
    let mut required = get_accumulated_output_amounts(&outputs).unwrap();
    let candidates = vec![input];
    let r = select_utxo_chain_inputs(
        &mut selected_inputs,
        &mut ids,
        &mut amount,
        &mut tokens,
        &mut outputs,
        &mut required,
        &candidates,
        true,
        0,
        &rent,
    );
    assert!(r.is_ok());
    assert_eq!(outputs.len(), 0);
    // The input is still selected and its value counted.
    assert_eq!(selected_inputs.len(), 1);
    assert_eq!(amount, 500000);
}

#[test]
fn rent_cost_weighs_kind_and_token_count() {
    let rent = RentStructure {
        v_byte_cost: 2,
        v_byte_offset: 10,
        weight_basic: 1,
        weight_alias: 1,
        weight_nft: 100,
        weight_foundry: 1,
        weight_native_token: 5,
    };
    let nft = Output::Nft(NftOutput {
        amount: 1,
        native_tokens: vec![
            NativeToken { token_id: 1, amount: 1 },
            NativeToken { token_id: 2, amount: 1 },
            NativeToken { token_id: 3, amount: 1 },
        ],
        nft_id: 1,
        unlock_conditions: vec![],
        features: vec![],
    });
    // 10 + 2 * (100 + 5 * 3) = 240
    assert_eq!(rent.rent_cost(&nft), 240);
}

#[test]
fn accumulator_sums_amounts_and_tokens() {
    let outputs = vec![
        Output::Basic(BasicOutput {
            amount: 5,
            native_tokens: vec![NativeToken { token_id: 3, amount: 2 }],
            unlock_conditions: vec![],
            features: vec![],
        }),
        Output::Basic(BasicOutput {
            amount: 7,
            native_tokens: vec![NativeToken { token_id: 3, amount: 4 }],
            unlock_conditions: vec![],
            features: vec![],
        }),
    ];
    let acc = get_accumulated_output_amounts(&outputs).unwrap();
    assert_eq!(acc.amount, 12);
    assert_eq!(acc.native_tokens.amount_of(3), 6);
    assert_eq!(acc.native_tokens.amount_of(4), 0);
}

#[test]
fn token_merge_overflow_is_an_error() {
    let mut b = NativeTokensBuilder::new();
    b.add_native_token(NativeToken { token_id: 1, amount: u64::MAX }).unwrap();
    let r = b.add_native_token(NativeToken { token_id: 1, amount: 1 });
    assert_eq!(r, Err(Error::Overflow));
    // A different token still fits.
    b.add_native_token(NativeToken { token_id: 2, amount: 1 }).unwrap();
    assert_eq!(b.amount_of(2), 1);
}

#[test]
fn expired_expiration_redirects_the_unlock_address() {
    let o = Output::Basic(BasicOutput {
        amount: 1,
        native_tokens: vec![],
        unlock_conditions: vec![
            UnlockCondition::Addr(Address::Ed25519(1)),
            UnlockCondition::Expiration { return_address: Address::Ed25519(2), timestamp: 100 },
        ],
        features: vec![],
    });
    assert!(output_contains_address(&o, Address::Ed25519(1), 50));
    assert!(!output_contains_address(&o, Address::Ed25519(1), 100));
    assert!(output_contains_address(&o, Address::Ed25519(2), 100));
}

#[test]
fn storage_deposit_return_expires() {
    let o = Output::Basic(BasicOutput {
        amount: 10,
        native_tokens: vec![],
        unlock_conditions: vec![
            UnlockCondition::Addr(Address::Ed25519(1)),
            UnlockCondition::StorageDepositReturn {
                return_address: Address::Ed25519(2),
                amount: 4,
            },
            UnlockCondition::Expiration { return_address: Address::Ed25519(2), timestamp: 100 },
        ],
        features: vec![],
    });
    assert_eq!(sdr_not_expired(&o, 50), Some((Address::Ed25519(2), 4)));
    assert_eq!(sdr_not_expired(&o, 100), None);
}

#[test]
fn unadvanceable_alias_state_is_an_error_in_selection() {
    let rent = rent_450k();
    let input = alias_input(7, 500000, u32::MAX, Address::Ed25519(1), 11);
    let mut selected_inputs: Vec<InputSigningData> = vec![];
    let mut ids = OutputIdSet::new();
    let mut amount: u64 = 0;
    let mut tokens = NativeTokensBuilder::new();
    let mut outputs: Vec<Output> = vec![];
    let mut required = get_accumulated_output_amounts(&outputs).unwrap();
    let candidates = vec![input];
    let r = select_utxo_chain_inputs(
        &mut selected_inputs,
        &mut ids,
        &mut amount,
        &mut tokens,
        &mut outputs,
        &mut required,
        &candidates,
        false,
        0,
        &rent,
    );
    assert_eq!(r, Err(Error::InvalidContinuation));
}
