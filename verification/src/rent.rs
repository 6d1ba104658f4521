//! The rent structure: the deterministic, pure cost function giving the
//! minimum amount an output must hold to be ledger-valid.
//!
//! The cost weighs the output's kind and its native token count; it does not
//! depend on the amount, the state index or the features, so a continuation
//! output costs exactly as much as the input it continues.

use vstd::prelude::*;

use crate::output::Output;

verus! {

/// Clips an unbounded quantity to the largest representable amount.
pub open spec fn clip_u64(x: int) -> int {
    if x > u64::MAX {
        u64::MAX as int
    } else {
        x
    }
}

/// The parameters of the cost function.
#[derive(Clone, Copy, PartialEq, Eq, Structural, Debug)]
pub struct RentStructure {
    /// Cost per virtual byte.
    pub v_byte_cost: u64,
    /// Fixed cost offset added to every output.
    pub v_byte_offset: u64,
    /// Virtual size of a basic output.
    pub weight_basic: u64,
    /// Virtual size of an alias output.
    pub weight_alias: u64,
    /// Virtual size of an NFT output.
    pub weight_nft: u64,
    /// Virtual size of a foundry output.
    pub weight_foundry: u64,
    /// Virtual size added per native token balance.
    pub weight_native_token: u64,
}

impl RentStructure {
    /// The virtual size assigned to an output's kind.
    pub open spec fn spec_kind_weight(self, output: Output) -> u64 {
        match output {
            Output::Basic(_) => self.weight_basic,
            Output::Alias(_) => self.weight_alias,
            Output::Nft(_) => self.weight_nft,
            Output::Foundry(_) => self.weight_foundry,
        }
    }

    /// The minimum amount the output must hold, saturating at the largest
    /// representable amount.
    pub open spec fn spec_rent_cost(self, output: Output) -> int {
        clip_u64(
            self.v_byte_offset + self.v_byte_cost * clip_u64(
                self.spec_kind_weight(output) + self.weight_native_token
                    * output.spec_native_tokens().len(),
            ),
        )
    }

    /// Computes the minimum amount the output must hold to be ledger-valid.
    pub fn rent_cost(&self, output: &Output) -> (c: u64)
        ensures
            c as int == self.spec_rent_cost(*output),
    {
        let kind_weight: u64 = match output {
            Output::Basic(_) => self.weight_basic,
            Output::Alias(_) => self.weight_alias,
            Output::Nft(_) => self.weight_nft,
            Output::Foundry(_) => self.weight_foundry,
        };
        let n: usize = output.native_token_count();
        proof {
            assert((self.weight_native_token as int) * (n as int) <= (u64::MAX as int) * (
            u64::MAX as int) && (self.weight_native_token as int) * (n as int) >= 0)
                by (nonlinear_arith)
                requires
                    0 <= self.weight_native_token <= u64::MAX,
                    0 <= n <= u64::MAX,
            ;
        }
        let token_bytes: u128 = (self.weight_native_token as u128) * (n as u128);
        let vbytes_wide: u128 = kind_weight as u128 + token_bytes;
        let vbytes: u64 = if vbytes_wide > u64::MAX as u128 {
            u64::MAX
        } else {
            vbytes_wide as u64
        };
        assert(vbytes as int == clip_u64(
            self.spec_kind_weight(*output) + self.weight_native_token
                * output.spec_native_tokens().len(),
        ));
        proof {
            assert((self.v_byte_cost as int) * (vbytes as int) <= (u64::MAX as int) * (
            u64::MAX as int) && (self.v_byte_cost as int) * (vbytes as int) >= 0)
                by (nonlinear_arith)
                requires
                    0 <= self.v_byte_cost <= u64::MAX,
                    0 <= vbytes <= u64::MAX,
            ;
        }
        let cost_bytes: u128 = (self.v_byte_cost as u128) * (vbytes as u128);
        let total_wide: u128 = self.v_byte_offset as u128 + cost_bytes;
        if total_wide > u64::MAX as u128 {
            u64::MAX
        } else {
            total_wide as u64
        }
    }
}

} // verus!
