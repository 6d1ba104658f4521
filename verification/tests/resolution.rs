use utxo_chains::error::Error;
use utxo_chains::output::Address;
use utxo_chains::output::AliasOutput;
use utxo_chains::output::NftOutput;
use utxo_chains::output::Output;
use utxo_chains::output::OutputId;
use utxo_chains::output::UnlockCondition;
use utxo_chains::resolve::Ledger;
use utxo_chains::resolve::LedgerEntry;
use utxo_chains::resolve::OutputResponse;
use utxo_chains::resolve::get_alias_and_nft_outputs_recursively;

fn alias_output(alias_id: u64, state_controller: Address) -> Output {
    Output::Alias(AliasOutput {
        amount: 1000,
        native_tokens: vec![],
        alias_id,
        state_index: 0,
        state_controller,
        governor: Address::Ed25519(90),
        features: vec![],
    })
}

#[test]
fn resolves_one_level_of_ownership() {
    // The given output is unlocked by alias 2, whose owning output is on the
    // ledger and is itself controlled by a plain address: one lookup closes
    // the set.
    let ledger = Ledger {
        entries: vec![LedgerEntry {
            address: Address::Alias(2),
            output_id: OutputId { transaction_id: 50, index: 0 },
            output: alias_output(2, Address::Ed25519(5)),
        }],
        current_time: 0,
    };
    let given = OutputResponse {
        output_id: OutputId { transaction_id: 51, index: 0 },
        output: alias_output(1, Address::Alias(2)),
    };
    let mut chains = vec![(Address::Alias(2), given)];
    get_alias_and_nft_outputs_recursively(&ledger, &mut chains).unwrap();
    assert_eq!(chains.len(), 2);
    // The fetched owning output, keyed by its controlling address.
    let fetched = chains
        .iter()
        .find(|(a, _)| *a == Address::Ed25519(5))
        .expect("the owning output of alias 2 must be in the closed set");
    match &fetched.1.output {
        Output::Alias(a) => assert_eq!(a.alias_id, 2),
        _ => panic!("expected an alias output"),
    }
    // The given pair is kept.
    assert!(chains.iter().any(|(a, r)| *a == Address::Alias(2)
        && r.output_id == OutputId { transaction_id: 51, index: 0 }));
}

#[test]
fn resolves_transitive_ownership_through_nft() {
    // Alias 2 is state-controlled by NFT 3; resolving must follow the chain
    // and fetch both owning outputs.
    let nft_owner = Output::Nft(NftOutput {
        amount: 500,
        native_tokens: vec![],
        nft_id: 3,
        unlock_conditions: vec![UnlockCondition::Addr(Address::Ed25519(7))],
        features: vec![],
    });
    let ledger = Ledger {
        entries: vec![
            LedgerEntry {
                address: Address::Alias(2),
                output_id: OutputId { transaction_id: 50, index: 0 },
                output: alias_output(2, Address::Nft(3)),
            },
            LedgerEntry {
                address: Address::Nft(3),
                output_id: OutputId { transaction_id: 52, index: 1 },
                output: nft_owner,
            },
        ],
        current_time: 0,
    };
    let given = OutputResponse {
        output_id: OutputId { transaction_id: 51, index: 0 },
        output: alias_output(1, Address::Alias(2)),
    };
    let mut chains = vec![(Address::Alias(2), given)];
    get_alias_and_nft_outputs_recursively(&ledger, &mut chains).unwrap();
    assert_eq!(chains.len(), 3);
    // The NFT's owning output enters under its effective unlock address.
    assert!(chains.iter().any(|(a, r)| *a == Address::Ed25519(7)
        && matches!(&r.output, Output::Nft(n) if n.nft_id == 3)));
    // Alias 2's owning output enters under its controller, the NFT address.
    assert!(chains.iter().any(|(a, r)| *a == Address::Nft(3)
        && matches!(&r.output, Output::Alias(al) if al.alias_id == 2)));
}

#[test]
fn already_known_address_is_not_fetched() {
    // The given output itself answers for alias 1, so no lookup happens even
    // though the ledger has no record for it.
    let ledger = Ledger { entries: vec![], current_time: 0 };
    let given = OutputResponse {
        output_id: OutputId { transaction_id: 51, index: 0 },
        output: alias_output(1, Address::Ed25519(5)),
    };
    let mut chains = vec![(Address::Alias(1), given)];
    get_alias_and_nft_outputs_recursively(&ledger, &mut chains).unwrap();
    assert_eq!(chains.len(), 1);
    assert_eq!(chains[0].0, Address::Alias(1));
}

#[test]
fn missing_owning_output_is_an_error() {
    let ledger = Ledger { entries: vec![], current_time: 0 };
    let given = OutputResponse {
        output_id: OutputId { transaction_id: 51, index: 0 },
        output: alias_output(1, Address::Alias(2)),
    };
    let mut chains = vec![(Address::Alias(2), given)];
    let r = get_alias_and_nft_outputs_recursively(&ledger, &mut chains);
    assert_eq!(r, Err(Error::OutputNotFound));
    // A failed run leaves the argument as it was given.
    assert_eq!(chains.len(), 1);
    assert_eq!(chains[0].0, Address::Alias(2));
}

#[test]
fn cyclic_ownership_terminates() {
    // Alias 2 and alias 4 control each other; the processed set stops the
    // walk after each address has been looked up once.
    let ledger = Ledger {
        entries: vec![
            LedgerEntry {
                address: Address::Alias(2),
                output_id: OutputId { transaction_id: 50, index: 0 },
                output: alias_output(2, Address::Alias(4)),
            },
            LedgerEntry {
                address: Address::Alias(4),
                output_id: OutputId { transaction_id: 52, index: 0 },
                output: alias_output(4, Address::Alias(2)),
            },
        ],
        current_time: 0,
    };
    let given = OutputResponse {
        output_id: OutputId { transaction_id: 51, index: 0 },
        output: alias_output(1, Address::Alias(2)),
    };
    let mut chains = vec![(Address::Alias(2), given)];
    get_alias_and_nft_outputs_recursively(&ledger, &mut chains).unwrap();
    // Both owning outputs are present exactly once, plus the given pair.
    assert_eq!(chains.len(), 3);
}
