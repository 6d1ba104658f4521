//! Evaluation of unlock conditions at a ledger time: which address an output
//! currently resolves to, and whether a storage-deposit-return condition is
//! still in force.

use vstd::prelude::*;

use crate::output::Address;
use crate::output::Output;
use crate::output::UnlockCondition;

verus! {

/// The return address of the first expiration condition that has passed at
/// the given ledger time, if any.
pub open spec fn spec_first_expired_return(s: Seq<UnlockCondition>, current_time: u32) -> Option<
    Address,
>
    decreases s.len(),
{
    if s.len() == 0 {
        None
    } else {
        match s[0] {
            UnlockCondition::Expiration { return_address, timestamp } => {
                if current_time >= timestamp {
                    Some(return_address)
                } else {
                    spec_first_expired_return(s.drop_first(), current_time)
                }
            },
            _ => spec_first_expired_return(s.drop_first(), current_time),
        }
    }
}

/// The address of the first plain address condition, if any.
pub open spec fn spec_first_address(s: Seq<UnlockCondition>) -> Option<Address>
    decreases s.len(),
{
    if s.len() == 0 {
        None
    } else {
        match s[0] {
            UnlockCondition::Addr(a) => Some(a),
            _ => spec_first_address(s.drop_first()),
        }
    }
}

/// The address the unlock conditions currently resolve to: the return address
/// of a passed expiration condition redirects the effective unlocker;
/// otherwise the plain address condition holds.
pub open spec fn spec_effective_address(s: Seq<UnlockCondition>, current_time: u32) -> Option<
    Address,
> {
    match spec_first_expired_return(s, current_time) {
        Some(a) => Some(a),
        None => spec_first_address(s),
    }
}

/// Computes the address the unlock conditions currently resolve to.
pub fn effective_address(conditions: &Vec<UnlockCondition>, current_time: u32) -> (r: Option<
    Address,
>)
    ensures
        r == spec_effective_address(conditions@, current_time),
{
    let n = conditions.len();
    let mut i: usize = 0;
    proof {
        assert(conditions@.skip(0) =~= conditions@);
    }
    while i < n
        invariant
            n == conditions@.len(),
            i <= n,
            spec_first_expired_return(conditions@, current_time) == spec_first_expired_return(
                conditions@.skip(i as int),
                current_time,
            ),
        decreases n - i,
    {
        match conditions[i] {
            UnlockCondition::Expiration { return_address, timestamp } => {
                if current_time >= timestamp {
                    proof {
                        assert(conditions@.skip(i as int)[0] == conditions@[i as int]);
                    }
                    return Some(return_address);
                }
            },
            _ => {},
        }
        proof {
            assert(conditions@.skip(i as int)[0] == conditions@[i as int]);
            assert(conditions@.skip(i as int).drop_first() =~= conditions@.skip(i as int + 1));
        }
        i = i + 1;
    }
    proof {
        assert(conditions@.skip(n as int).len() == 0);
    }
    let mut j: usize = 0;
    proof {
        assert(conditions@.skip(0) =~= conditions@);
    }
    while j < n
        invariant
            n == conditions@.len(),
            j <= n,
            spec_first_expired_return(conditions@, current_time) is None,
            spec_first_address(conditions@) == spec_first_address(conditions@.skip(j as int)),
        decreases n - j,
    {
        match conditions[j] {
            UnlockCondition::Addr(a) => {
                proof {
                    assert(conditions@.skip(j as int)[0] == conditions@[j as int]);
                }
                return Some(a);
            },
            _ => {},
        }
        proof {
            assert(conditions@.skip(j as int)[0] == conditions@[j as int]);
            assert(conditions@.skip(j as int).drop_first() =~= conditions@.skip(j as int + 1));
        }
        j = j + 1;
    }
    proof {
        assert(conditions@.skip(n as int).len() == 0);
    }
    None
}

/// Whether the output's unlock conditions currently (or unconditionally)
/// resolve to the given address: for an alias output its state controller or
/// governor, for a foundry its controlling alias address, otherwise the
/// effective address of its unlock conditions at the given time.
pub open spec fn spec_output_contains_address(
    output: Output,
    address: Address,
    current_time: u32,
) -> bool {
    match output {
        Output::Basic(o) => spec_effective_address(o.unlock_conditions@, current_time) == Some(
            address,
        ),
        Output::Alias(o) => o.state_controller == address || o.governor == address,
        Output::Nft(o) => spec_effective_address(o.unlock_conditions@, current_time) == Some(
            address,
        ),
        Output::Foundry(o) => o.alias_address == address,
    }
}

/// Decides whether the output's unlock conditions currently resolve to the
/// given address.
pub fn output_contains_address(output: &Output, address: Address, current_time: u32) -> (r: bool)
    ensures
        r == spec_output_contains_address(*output, address, current_time),
{
    match output {
        Output::Basic(o) => {
            match effective_address(&o.unlock_conditions, current_time) {
                Some(a) => a == address,
                None => false,
            }
        },
        Output::Alias(o) => o.state_controller == address || o.governor == address,
        Output::Nft(o) => {
            match effective_address(&o.unlock_conditions, current_time) {
                Some(a) => a == address,
                None => false,
            }
        },
        Output::Foundry(o) => o.alias_address == address,
    }
}

/// The first storage-deposit-return condition, if any.
pub open spec fn spec_first_sdr(s: Seq<UnlockCondition>) -> Option<(Address, u64)>
    decreases s.len(),
{
    if s.len() == 0 {
        None
    } else {
        match s[0] {
            UnlockCondition::StorageDepositReturn { return_address, amount } => Some(
                (return_address, amount),
            ),
            _ => spec_first_sdr(s.drop_first()),
        }
    }
}

/// Whether some expiration condition has passed at the given ledger time.
pub open spec fn spec_has_expired_expiration(s: Seq<UnlockCondition>, current_time: u32) -> bool {
    spec_first_expired_return(s, current_time) is Some
}

/// The storage-deposit-return condition the output still owes at the given
/// ledger time: its return condition, unless an expiration condition has
/// passed. Alias and foundry outputs carry none.
pub open spec fn spec_sdr_not_expired(output: Output, current_time: u32) -> Option<(Address, u64)> {
    match output {
        Output::Basic(o) => {
            if spec_has_expired_expiration(o.unlock_conditions@, current_time) {
                None
            } else {
                spec_first_sdr(o.unlock_conditions@)
            }
        },
        Output::Nft(o) => {
            if spec_has_expired_expiration(o.unlock_conditions@, current_time) {
                None
            } else {
                spec_first_sdr(o.unlock_conditions@)
            }
        },
        _ => None,
    }
}

fn first_sdr(conditions: &Vec<UnlockCondition>) -> (r: Option<(Address, u64)>)
    ensures
        r == spec_first_sdr(conditions@),
{
    let n = conditions.len();
    let mut i: usize = 0;
    proof {
        assert(conditions@.skip(0) =~= conditions@);
    }
    while i < n
        invariant
            n == conditions@.len(),
            i <= n,
            spec_first_sdr(conditions@) == spec_first_sdr(conditions@.skip(i as int)),
        decreases n - i,
    {
        match conditions[i] {
            UnlockCondition::StorageDepositReturn { return_address, amount } => {
                proof {
                    assert(conditions@.skip(i as int)[0] == conditions@[i as int]);
                }
                return Some((return_address, amount));
            },
            _ => {},
        }
        proof {
            assert(conditions@.skip(i as int)[0] == conditions@[i as int]);
            assert(conditions@.skip(i as int).drop_first() =~= conditions@.skip(i as int + 1));
        }
        i = i + 1;
    }
    proof {
        assert(conditions@.skip(n as int).len() == 0);
    }
    None
}

fn has_expired_expiration(conditions: &Vec<UnlockCondition>, current_time: u32) -> (r: bool)
    ensures
        r == spec_has_expired_expiration(conditions@, current_time),
{
    let n = conditions.len();
    let mut i: usize = 0;
    proof {
        assert(conditions@.skip(0) =~= conditions@);
    }
    while i < n
        invariant
            n == conditions@.len(),
            i <= n,
            spec_first_expired_return(conditions@, current_time) == spec_first_expired_return(
                conditions@.skip(i as int),
                current_time,
            ),
        decreases n - i,
    {
        match conditions[i] {
            UnlockCondition::Expiration { return_address: _, timestamp } => {
                if current_time >= timestamp {
                    proof {
                        assert(conditions@.skip(i as int)[0] == conditions@[i as int]);
                    }
                    return true;
                }
            },
            _ => {},
        }
        proof {
            assert(conditions@.skip(i as int)[0] == conditions@[i as int]);
            assert(conditions@.skip(i as int).drop_first() =~= conditions@.skip(i as int + 1));
        }
        i = i + 1;
    }
    proof {
        assert(conditions@.skip(n as int).len() == 0);
    }
    false
}

/// Yields the storage-deposit-return condition the output still owes at the
/// given ledger time, if any.
pub fn sdr_not_expired(output: &Output, current_time: u32) -> (r: Option<(Address, u64)>)
    ensures
        r == spec_sdr_not_expired(*output, current_time),
{
    match output {
        Output::Basic(o) => {
            if has_expired_expiration(&o.unlock_conditions, current_time) {
                None
            } else {
                first_sdr(&o.unlock_conditions)
            }
        },
        Output::Nft(o) => {
            if has_expired_expiration(&o.unlock_conditions, current_time) {
                None
            } else {
                first_sdr(&o.unlock_conditions)
            }
        },
        Output::Alias(_) => None,
        Output::Foundry(_) => None,
    }
}

} // verus!
