//! The ledger data model: output identifiers, addresses, features, unlock
//! conditions and the four output kinds.
//!
//! Outputs are immutable value snapshots; "updates" are replacements pushed
//! into a working output list. Alias and NFT outputs carry a chain identifier
//! that is either explicit or, for freshly created outputs, derived
//! deterministically from the output identifier that created them; the zero
//! identifier is the unset sentinel.

use vstd::prelude::*;

verus! {

/// Identifies an output unambiguously: the transaction that created it and
/// the index of the output within that transaction.
#[derive(Clone, Copy, PartialEq, Eq, Structural, Debug, Hash)]
pub struct OutputId {
    pub transaction_id: u64,
    pub index: u16,
}

/// The unset sentinel for alias and NFT chain identifiers: a freshly created
/// chain output carries this value until its identity is derived from the
/// output identifier that created it.
pub const UNSET_CHAIN_ID: u64 = 0;

/// The chain identifier derived from an output identifier, used wherever a
/// chain output's stored identifier is still the unset sentinel.
pub open spec fn spec_derive_chain_id(output_id: OutputId) -> u64 {
    output_id.transaction_id ^ ((output_id.index + 1) as u64)
}

/// Derives a chain identifier from the output identifier that created the
/// output.
pub fn derive_chain_id(output_id: OutputId) -> (id: u64)
    ensures
        id == spec_derive_chain_id(output_id),
{
    let seed: u64 = output_id.index as u64 + 1;
    output_id.transaction_id ^ seed
}

/// A stored chain identifier, or the one derived from `output_id` when the
/// stored identifier is still the unset sentinel.
pub open spec fn spec_or_from_output_id(id: u64, output_id: OutputId) -> u64 {
    if id == UNSET_CHAIN_ID {
        spec_derive_chain_id(output_id)
    } else {
        id
    }
}

/// Resolves a stored chain identifier, deriving it from the output identifier
/// when it is still the unset sentinel.
pub fn or_from_output_id(id: u64, output_id: OutputId) -> (r: u64)
    ensures
        r == spec_or_from_output_id(id, output_id),
{
    if id == UNSET_CHAIN_ID {
        derive_chain_id(output_id)
    } else {
        id
    }
}

/// An address: a plain key-based one, or the address of an alias or NFT chain,
/// which makes the owning output itself the unlocking authority.
#[derive(Clone, Copy, PartialEq, Eq, Structural, Debug, Hash)]
pub enum Address {
    Ed25519(u64),
    Alias(u64),
    Nft(u64),
}

impl Address {
    /// Whether this address is a chain address, i.e. one whose unlocking
    /// authority is itself an alias or NFT output.
    pub open spec fn spec_is_chain_address(self) -> bool {
        self is Alias || self is Nft
    }

    /// Whether this address is a chain (alias or NFT) address.
    pub fn is_chain_address(&self) -> (r: bool)
        ensures
            r == self.spec_is_chain_address(),
    {
        match self {
            Address::Ed25519(_) => false,
            Address::Alias(_) => true,
            Address::Nft(_) => true,
        }
    }
}

/// A secondary fungible asset balance attached to an output.
#[derive(Clone, Copy, PartialEq, Eq, Structural, Debug)]
pub struct NativeToken {
    pub token_id: u64,
    pub amount: u64,
}

/// A feature attached to an output. Continuation outputs never inherit a
/// sender feature from the consumed input.
#[derive(Clone, Copy, PartialEq, Eq, Structural, Debug)]
pub enum Feature {
    Sender(Address),
    Issuer(Address),
    Metadata(u64),
}

/// An unlock condition of an output.
#[derive(Clone, Copy, PartialEq, Eq, Structural, Debug)]
pub enum UnlockCondition {
    /// The address that may unlock the output.
    Addr(Address),
    /// Part of the output's value must be returned to the given address.
    StorageDepositReturn { return_address: Address, amount: u64 },
    /// The output cannot be unlocked before the given ledger time.
    Timelock { timestamp: u32 },
    /// Past the given ledger time the output may only be unlocked by the
    /// given return address.
    Expiration { return_address: Address, timestamp: u32 },
}

/// A plain value output without a chain identity.
pub struct BasicOutput {
    pub amount: u64,
    pub native_tokens: Vec<NativeToken>,
    pub unlock_conditions: Vec<UnlockCondition>,
    pub features: Vec<Feature>,
}

/// An alias output: a chain output with a monotonically increasing state
/// index, controlled by its state controller and governor addresses.
pub struct AliasOutput {
    pub amount: u64,
    pub native_tokens: Vec<NativeToken>,
    pub alias_id: u64,
    pub state_index: u32,
    pub state_controller: Address,
    pub governor: Address,
    pub features: Vec<Feature>,
}

/// An NFT output: a chain output unlocked through its unlock conditions.
pub struct NftOutput {
    pub amount: u64,
    pub native_tokens: Vec<NativeToken>,
    pub nft_id: u64,
    pub unlock_conditions: Vec<UnlockCondition>,
    pub features: Vec<Feature>,
}

/// A foundry output: a chain output with an immutable identifier, controlled
/// by the alias address that created it.
pub struct FoundryOutput {
    pub amount: u64,
    pub native_tokens: Vec<NativeToken>,
    pub foundry_id: u64,
    pub alias_address: Address,
}

/// An output: a closed sum over the four output kinds.
pub enum Output {
    Basic(BasicOutput),
    Alias(AliasOutput),
    Nft(NftOutput),
    Foundry(FoundryOutput),
}

impl Output {
    /// The base amount of value the output holds.
    pub open spec fn spec_amount(self) -> u64 {
        match self {
            Output::Basic(o) => o.amount,
            Output::Alias(o) => o.amount,
            Output::Nft(o) => o.amount,
            Output::Foundry(o) => o.amount,
        }
    }

    /// The native token balances the output carries.
    pub open spec fn spec_native_tokens(self) -> Seq<NativeToken> {
        match self {
            Output::Basic(o) => o.native_tokens@,
            Output::Alias(o) => o.native_tokens@,
            Output::Nft(o) => o.native_tokens@,
            Output::Foundry(o) => o.native_tokens@,
        }
    }

    /// The features the output carries; foundry outputs carry none that this
    /// logic reads.
    pub open spec fn spec_features(self) -> Seq<Feature> {
        match self {
            Output::Basic(o) => o.features@,
            Output::Alias(o) => o.features@,
            Output::Nft(o) => o.features@,
            Output::Foundry(_) => Seq::<Feature>::empty(),
        }
    }

    /// Whether the output is a chain output, i.e. one whose identity persists
    /// across transactions.
    pub open spec fn spec_is_chain(self) -> bool {
        !(self is Basic)
    }

    /// The base amount of value the output holds.
    pub fn amount(&self) -> (a: u64)
        ensures
            a == self.spec_amount(),
    {
        match self {
            Output::Basic(o) => o.amount,
            Output::Alias(o) => o.amount,
            Output::Nft(o) => o.amount,
            Output::Foundry(o) => o.amount,
        }
    }

    /// The native token balances the output carries.
    pub fn native_tokens_ref(&self) -> (r: &Vec<NativeToken>)
        ensures
            r@ == self.spec_native_tokens(),
    {
        match self {
            Output::Basic(o) => &o.native_tokens,
            Output::Alias(o) => &o.native_tokens,
            Output::Nft(o) => &o.native_tokens,
            Output::Foundry(o) => &o.native_tokens,
        }
    }

    /// How many native token balances the output carries.
    pub fn native_token_count(&self) -> (n: usize)
        ensures
            n == self.spec_native_tokens().len(),
    {
        match self {
            Output::Basic(o) => o.native_tokens.len(),
            Output::Alias(o) => o.native_tokens.len(),
            Output::Nft(o) => o.native_tokens.len(),
            Output::Foundry(o) => o.native_tokens.len(),
        }
    }
}

/// Wraps an output together with the identifier under which it sits on the
/// ledger: the unit the selector consumes and emits.
pub struct InputSigningData {
    pub output: Output,
    pub output_id: OutputId,
}

pub(crate) fn clone_native_tokens(v: &Vec<NativeToken>) -> (r: Vec<NativeToken>)
    ensures
        r@ == v@,
{
    let mut r: Vec<NativeToken> = Vec::new();
    let mut i: usize = 0;
    while i < v.len()
        invariant
            i <= v.len(),
            r@ == v@.take(i as int),
        decreases v.len() - i,
    {
        r.push(v[i]);
        i = i + 1;
        proof {
            assert(r@ =~= v@.take(i as int));
        }
    }
    proof {
        assert(v@.take(v@.len() as int) =~= v@);
    }
    r
}

pub(crate) fn clone_unlock_conditions(v: &Vec<UnlockCondition>) -> (r: Vec<UnlockCondition>)
    ensures
        r@ == v@,
{
    let mut r: Vec<UnlockCondition> = Vec::new();
    let mut i: usize = 0;
    while i < v.len()
        invariant
            i <= v.len(),
            r@ == v@.take(i as int),
        decreases v.len() - i,
    {
        r.push(v[i]);
        i = i + 1;
        proof {
            assert(r@ =~= v@.take(i as int));
        }
    }
    proof {
        assert(v@.take(v@.len() as int) =~= v@);
    }
    r
}

pub(crate) fn clone_features(v: &Vec<Feature>) -> (r: Vec<Feature>)
    ensures
        r@ == v@,
{
    let mut r: Vec<Feature> = Vec::new();
    let mut i: usize = 0;
    while i < v.len()
        invariant
            i <= v.len(),
            r@ == v@.take(i as int),
        decreases v.len() - i,
    {
        r.push(v[i]);
        i = i + 1;
        proof {
            assert(r@ =~= v@.take(i as int));
        }
    }
    proof {
        assert(v@.take(v@.len() as int) =~= v@);
    }
    r
}

/// Value equality of two outputs, field by field, with collection fields
/// compared by contents.
pub open spec fn output_eq(a: Output, b: Output) -> bool {
    match (a, b) {
        (Output::Basic(x), Output::Basic(y)) => {
            &&& x.amount == y.amount
            &&& x.native_tokens@ == y.native_tokens@
            &&& x.unlock_conditions@ == y.unlock_conditions@
            &&& x.features@ == y.features@
        },
        (Output::Alias(x), Output::Alias(y)) => {
            &&& x.amount == y.amount
            &&& x.native_tokens@ == y.native_tokens@
            &&& x.alias_id == y.alias_id
            &&& x.state_index == y.state_index
            &&& x.state_controller == y.state_controller
            &&& x.governor == y.governor
            &&& x.features@ == y.features@
        },
        (Output::Nft(x), Output::Nft(y)) => {
            &&& x.amount == y.amount
            &&& x.native_tokens@ == y.native_tokens@
            &&& x.nft_id == y.nft_id
            &&& x.unlock_conditions@ == y.unlock_conditions@
            &&& x.features@ == y.features@
        },
        (Output::Foundry(x), Output::Foundry(y)) => {
            &&& x.amount == y.amount
            &&& x.native_tokens@ == y.native_tokens@
            &&& x.foundry_id == y.foundry_id
            &&& x.alias_address == y.alias_address
        },
        _ => false,
    }
}

/// Clones an output, preserving every field.
pub fn clone_output(o: &Output) -> (r: Output)
    ensures
        output_eq(r, *o),
{
    match o {
        Output::Basic(b) => Output::Basic(BasicOutput {
            amount: b.amount,
            native_tokens: clone_native_tokens(&b.native_tokens),
            unlock_conditions: clone_unlock_conditions(&b.unlock_conditions),
            features: clone_features(&b.features),
        }),
        Output::Alias(a) => Output::Alias(AliasOutput {
            amount: a.amount,
            native_tokens: clone_native_tokens(&a.native_tokens),
            alias_id: a.alias_id,
            state_index: a.state_index,
            state_controller: a.state_controller,
            governor: a.governor,
            features: clone_features(&a.features),
        }),
        Output::Nft(n) => Output::Nft(NftOutput {
            amount: n.amount,
            native_tokens: clone_native_tokens(&n.native_tokens),
            nft_id: n.nft_id,
            unlock_conditions: clone_unlock_conditions(&n.unlock_conditions),
            features: clone_features(&n.features),
        }),
        Output::Foundry(f) => Output::Foundry(FoundryOutput {
            amount: f.amount,
            native_tokens: clone_native_tokens(&f.native_tokens),
            foundry_id: f.foundry_id,
            alias_address: f.alias_address,
        }),
    }
}

/// Value equality of two selector input units.
pub open spec fn input_eq(a: InputSigningData, b: InputSigningData) -> bool {
    a.output_id == b.output_id && output_eq(a.output, b.output)
}

/// Clones a selector input unit, preserving its output and identifier.
pub fn clone_input(i: &InputSigningData) -> (r: InputSigningData)
    ensures
        input_eq(r, *i),
{
    InputSigningData { output: clone_output(&i.output), output_id: i.output_id }
}

} // verus!
