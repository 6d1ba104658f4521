//! The chain resolver: given (unlock address, output) pairs that are alias or
//! NFT owned, discovers every output required to unlock the ownership chain
//! by looking the owning outputs up in a ledger snapshot, producing a closed
//! set of (address, output) pairs.
//!
//! The recursion is an explicit work-list plus a processed-address set: the
//! set is the deduplication gate, so each owning address is looked up at most
//! once per run, and the run terminates on any ledger, cyclic ownership
//! included.

use vstd::prelude::*;

use crate::error::Error;
use crate::idset::AddressSet;
use crate::output::Address;
use crate::output::Output;
use crate::output::OutputId;
use crate::output::clone_output;
use crate::output::output_eq;
use crate::output::spec_or_from_output_id;
use crate::output::or_from_output_id;
use crate::unlock::effective_address;
use crate::unlock::spec_effective_address;

verus! {

/// An output together with the identifier under which the ledger serves it.
pub struct OutputResponse {
    pub output_id: OutputId,
    pub output: Output,
}

/// Value equality of two responses.
pub open spec fn response_eq(a: OutputResponse, b: OutputResponse) -> bool {
    a.output_id == b.output_id && output_eq(a.output, b.output)
}

/// Value equality of two (unlock address, response) pairs.
pub open spec fn pair_eq(a: (Address, OutputResponse), b: (Address, OutputResponse)) -> bool {
    a.0 == b.0 && response_eq(a.1, b.1)
}

/// Whether some pair in the list equals the given pair by value.
pub open spec fn in_pairs(pairs: Seq<(Address, OutputResponse)>, p: (Address, OutputResponse)) -> bool {
    exists|k: int| 0 <= k < pairs.len() && pair_eq(#[trigger] pairs[k], p)
}

/// One ledger record: the current output owning a chain address.
pub struct LedgerEntry {
    pub address: Address,
    pub output_id: OutputId,
    pub output: Output,
}

/// A snapshot of the ledger: the current owning output per chain address,
/// and the ledger-consensus time.
pub struct Ledger {
    pub entries: Vec<LedgerEntry>,
    pub current_time: u32,
}

/// The address that currently controls the owning output: an alias's state
/// controller (a state transition is what consuming it as an input is), or
/// the address an NFT's unlock conditions resolve to at the ledger time.
pub open spec fn spec_controller(o: Output, current_time: u32) -> Address {
    match o {
        Output::Alias(a) => a.state_controller,
        Output::Nft(n) => match spec_effective_address(n.unlock_conditions@, current_time) {
            Some(a) => a,
            None => Address::Ed25519(0),
        },
        _ => Address::Ed25519(0),
    }
}

/// The pair a successful lookup of this ledger record yields: the
/// controlling address and the owning output.
pub open spec fn resolved_pair(e: LedgerEntry, current_time: u32) -> (Address, OutputResponse) {
    (
        spec_controller(e.output, current_time),
        OutputResponse { output_id: e.output_id, output: e.output },
    )
}

/// Whether the pair is what resolving some ledger record yields.
pub open spec fn from_ledger(entries: Seq<LedgerEntry>, current_time: u32, p: (Address, OutputResponse)) -> bool {
    exists|e: int| 0 <= e < entries.len() && pair_eq(p, resolved_pair(#[trigger] entries[e], current_time))
}

/// Whether a work item's carried output is one of the given pairs.
pub open spec fn carried_from(
    orig: Seq<(Address, OutputResponse)>,
    w: (Address, Option<OutputResponse>),
) -> bool {
    w.1 matches Some(resp) ==> exists|i: int|
        0 <= i < orig.len() && (#[trigger] orig[i]).0 == w.0 && response_eq(resp, orig[i].1)
}

/// Whether a work item still pending answers for the given pair.
pub open spec fn pending_in_work(
    work: Seq<(Address, Option<OutputResponse>)>,
    p: (Address, OutputResponse),
) -> bool {
    exists|k: int|
        0 <= k < work.len() && (#[trigger] work[k]).0 == p.0 && (work[k].1 matches Some(resp)
            && response_eq(resp, p.1))
}

/// Whether some ledger record is keyed by the address.
pub open spec fn keyed(entries: Seq<LedgerEntry>, a: Address) -> bool {
    exists|e: int| 0 <= e < entries.len() && (#[trigger] entries[e]).address == a
}

/// Whether the ledger is closed under ownership: every chain-typed
/// controller address of a record's owning output is itself keyed by some
/// record.
pub open spec fn ledger_closed(ledger: Ledger) -> bool {
    forall|e: int|
        0 <= e < ledger.entries@.len() ==> (spec_controller(
            (#[trigger] ledger.entries@[e]).output,
            ledger.current_time,
        ).spec_is_chain_address() ==> keyed(
            ledger.entries@,
            spec_controller(ledger.entries@[e].output, ledger.current_time),
        ))
}

/// Whether every given pair's chain-typed unlock address is answered for by
/// one of the given outputs themselves or keyed by some ledger record.
pub open spec fn inputs_covered(ledger: Ledger, pairs: Seq<(Address, OutputResponse)>) -> bool {
    forall|i: int|
        0 <= i < pairs.len() ==> ((#[trigger] pairs[i]).0.spec_is_chain_address() ==> seeded(
            pairs,
            pairs[i].0,
        ) || keyed(ledger.entries@, pairs[i].0))
}

/// Whether the address is keyed by some ledger record whose resolution pair
/// stands among the given pairs.
pub open spec fn resolved_in(
    pairs: Seq<(Address, OutputResponse)>,
    entries: Seq<LedgerEntry>,
    current_time: u32,
    a: Address,
) -> bool {
    exists|e: int|
        0 <= e < entries.len() && (#[trigger] entries[e]).address == a && in_pairs(
            pairs,
            resolved_pair(entries[e], current_time),
        )
}

/// Whether some work item carries the given address.
pub open spec fn pending_addr(work: Seq<(Address, Option<OutputResponse>)>, a: Address) -> bool {
    exists|k: int| 0 <= k < work.len() && (#[trigger] work[k]).0 == a
}

impl Ledger {
    /// Each record is keyed by a distinct chain address, its output is of the
    /// matching kind and carries the matching chain identifier, and an NFT
    /// record's unlock conditions resolve to some address.
    pub open spec fn wf(self) -> bool {
        &&& forall|i: int, j: int|
            0 <= i < self.entries@.len() && 0 <= j < self.entries@.len() && i != j
                ==> (#[trigger] self.entries@[i]).address != (#[trigger] self.entries@[j]).address
        &&& forall|i: int|
            0 <= i < self.entries@.len() ==> (match (#[trigger] self.entries@[i]).address {
                Address::Ed25519(_) => false,
                Address::Alias(id) => self.entries@[i].output matches Output::Alias(a)
                    && spec_or_from_output_id(a.alias_id, self.entries@[i].output_id) == id,
                Address::Nft(id) => self.entries@[i].output matches Output::Nft(n)
                    && spec_or_from_output_id(n.nft_id, self.entries@[i].output_id) == id
                    && spec_effective_address(n.unlock_conditions@, self.current_time) is Some,
            })
    }

    /// The current ledger-consensus time, read once per resolution run.
    pub fn get_time_checked(&self) -> (t: u32)
        ensures
            t == self.current_time,
    {
        self.current_time
    }

    /// The record keyed by the address, if any.
    fn find(&self, address: Address) -> (r: Option<usize>)
        ensures
            r matches Some(k) ==> k < self.entries@.len() && self.entries@[k as int].address
                == address,
            r is None ==> forall|e: int|
                0 <= e < self.entries@.len() ==> (#[trigger] self.entries@[e]).address != address,
    {
        let n = self.entries.len();
        let mut i: usize = 0;
        while i < n
            invariant
                i <= n,
                forall|e: int| 0 <= e < i ==> (#[trigger] self.entries@[e]).address != address,
            decreases n - i,
        {
            if self.entries[i].address == address {
                return Some(i);
            }
            i = i + 1;
        }
        None
    }
}

/// The chain address a response's output itself answers for, if any: the
/// alias or NFT address of its (derived) chain identifier.
pub open spec fn spec_seed_address(resp: OutputResponse) -> Option<Address> {
    match resp.output {
        Output::Alias(a) => Some(
            Address::Alias(spec_or_from_output_id(a.alias_id, resp.output_id)),
        ),
        Output::Nft(n) => Some(Address::Nft(spec_or_from_output_id(n.nft_id, resp.output_id))),
        _ => None,
    }
}

/// Whether the address is answered for by one of the given pairs' own
/// outputs.
pub open spec fn seeded(pairs: Seq<(Address, OutputResponse)>, a: Address) -> bool {
    exists|i: int| 0 <= i < pairs.len() && spec_seed_address((#[trigger] pairs[i]).1) == Some(a)
}

/// Membership in an address list extended by one entry.
proof fn lemma_addr_contains_push(s: Seq<Address>, x: Address, y: Address)
    ensures
        s.push(x).contains(y) == (s.contains(y) || y == x),
{
    if s.contains(y) {
        let w = choose|w: int| 0 <= w < s.len() && s[w] == y;
        assert(s.push(x)[w] == y);
    }
    assert(s.push(x)[s.len() as int] == x);
    if s.push(x).contains(y) && y != x {
        let w = choose|w: int| 0 <= w < s.push(x).len() && s.push(x)[w] == y;
        assert(0 <= w < s.len());
        assert(s[w] == y);
    }
}

/// How many ledger records' addresses are not yet processed.
pub open spec fn count_unresolved(entries: Seq<LedgerEntry>, processed: Seq<Address>) -> int
    decreases entries.len(),
{
    if entries.len() == 0 {
        0
    } else {
        count_unresolved(entries.drop_last(), processed) + if processed.contains(
            entries.last().address,
        ) {
            0int
        } else {
            1int
        }
    }
}

proof fn lemma_count_unresolved_nonneg(entries: Seq<LedgerEntry>, processed: Seq<Address>)
    ensures
        count_unresolved(entries, processed) >= 0,
    decreases entries.len(),
{
    if entries.len() > 0 {
        lemma_count_unresolved_nonneg(entries.drop_last(), processed);
    }
}

proof fn lemma_count_unresolved_insert(
    entries: Seq<LedgerEntry>,
    processed: Seq<Address>,
    x: Address,
)
    ensures
        count_unresolved(entries, processed.push(x)) <= count_unresolved(entries, processed),
    decreases entries.len(),
{
    if entries.len() > 0 {
        lemma_count_unresolved_insert(entries.drop_last(), processed, x);
        lemma_addr_contains_push(processed, x, entries.last().address);
    }
}

proof fn lemma_count_unresolved_insert_hit(
    entries: Seq<LedgerEntry>,
    processed: Seq<Address>,
    e: int,
)
    requires
        0 <= e < entries.len(),
        !processed.contains(entries[e].address),
    ensures
        count_unresolved(entries, processed.push(entries[e].address)) < count_unresolved(
            entries,
            processed,
        ),
    decreases entries.len(),
{
    let x = entries[e].address;
    if e == entries.len() - 1 {
        lemma_count_unresolved_insert(entries.drop_last(), processed, x);
        lemma_addr_contains_push(processed, x, x);
    } else {
        lemma_count_unresolved_insert_hit(entries.drop_last(), processed, e);
        lemma_addr_contains_push(processed, x, entries.last().address);
    }
}

proof fn lemma_count_unresolved_insert_miss(
    entries: Seq<LedgerEntry>,
    processed: Seq<Address>,
    x: Address,
)
    requires
        forall|e: int| 0 <= e < entries.len() ==> (#[trigger] entries[e]).address != x,
    ensures
        count_unresolved(entries, processed.push(x)) == count_unresolved(entries, processed),
    decreases entries.len(),
{
    if entries.len() > 0 {
        lemma_count_unresolved_insert_miss(entries.drop_last(), processed, x);
        lemma_addr_contains_push(processed, x, entries.last().address);
    }
}

/// Clones a response, preserving its output and identifier.
fn clone_response(r: &OutputResponse) -> (c: OutputResponse)
    ensures
        response_eq(c, *r),
{
    OutputResponse { output_id: r.output_id, output: clone_output(&r.output) }
}

/// Resolves, against the ledger snapshot, every output required to unlock
/// the given alias- or NFT-owned pairs, replacing the pairs by the closed
/// set: every given pair is kept; every added pair is the controlling
/// address and owning output of some ledger record; and every alias or NFT
/// unlock address in the result is either answered for by one of the given
/// outputs themselves or resolved through the ledger within the result.
/// Fails when an owning address that must be unlocked has no ledger record.
#[verifier::rlimit(100)]
pub fn get_alias_and_nft_outputs_recursively(
    ledger: &Ledger,
    utxo_chains: &mut Vec<(Address, OutputResponse)>,
) -> (r: Result<(), Error>)
    requires
        ledger.wf(),
    ensures
        r is Ok ==> forall|i: int|
            0 <= i < old(utxo_chains)@.len() ==> in_pairs(
                final(utxo_chains)@,
                #[trigger] old(utxo_chains)@[i],
            ),
        r is Ok ==> forall|k: int|
            0 <= k < final(utxo_chains)@.len() ==> in_pairs(
                old(utxo_chains)@,
                #[trigger] final(utxo_chains)@[k],
            ) || from_ledger(ledger.entries@, ledger.current_time, final(utxo_chains)@[k]),
        r is Ok ==> forall|k: int|
            0 <= k < final(utxo_chains)@.len()
                && (#[trigger] final(utxo_chains)@[k]).0.spec_is_chain_address() ==> seeded(
                old(utxo_chains)@,
                final(utxo_chains)@[k].0,
            ) || resolved_in(
                final(utxo_chains)@,
                ledger.entries@,
                ledger.current_time,
                final(utxo_chains)@[k].0,
            ),
        r is Err ==> r == Result::<(), Error>::Err(Error::OutputNotFound)
            && final(utxo_chains)@ == old(utxo_chains)@,
        ledger_closed(*ledger) && inputs_covered(*ledger, old(utxo_chains)@) ==> r is Ok,
{
    let ghost orig: Seq<(Address, OutputResponse)> = old(utxo_chains)@;
    let current_time = ledger.get_time_checked();

    // Seed the processed set with the chain addresses the given outputs
    // themselves answer for: those need no lookup.
    let mut processed = AddressSet::new();
    let n0 = utxo_chains.len();
    let mut i: usize = 0;
    while i < n0
        invariant
            i <= n0,
            n0 == orig.len(),
            utxo_chains@ == orig,
            processed.wf(),
            forall|a: Address| #[trigger] processed@.contains(a) ==> seeded(orig, a),
            forall|ii: int|
                0 <= ii < i ==> (match spec_seed_address((#[trigger] orig[ii]).1) {
                    Some(a) => processed@.contains(a),
                    None => true,
                }),
        decreases n0 - i,
    {
        let ghost before: Seq<Address> = processed@;
        let resp = &utxo_chains[i].1;
        match &resp.output {
            Output::Alias(a) => {
                let addr = Address::Alias(or_from_output_id(a.alias_id, resp.output_id));
                processed.insert(addr);
                proof {
                    assert(spec_seed_address(orig[i as int].1) == Some(addr));
                    assert forall|y: Address| #[trigger]
                        processed@.contains(y) implies seeded(orig, y) by {
                        if !before.contains(y) {
                            lemma_addr_contains_push(before, addr, y);
                        }
                    }
                    assert forall|y: Address| #[trigger]
                        before.contains(y) implies processed@.contains(y) by {
                        lemma_addr_contains_push(before, addr, y);
                    }
                    assert(processed@.contains(addr)) by {
                        lemma_addr_contains_push(before, addr, addr);
                    }
                }
            },
            Output::Nft(nf) => {
                let addr = Address::Nft(or_from_output_id(nf.nft_id, resp.output_id));
                processed.insert(addr);
                proof {
                    assert(spec_seed_address(orig[i as int].1) == Some(addr));
                    assert forall|y: Address| #[trigger]
                        processed@.contains(y) implies seeded(orig, y) by {
                        if !before.contains(y) {
                            lemma_addr_contains_push(before, addr, y);
                        }
                    }
                    assert forall|y: Address| #[trigger]
                        before.contains(y) implies processed@.contains(y) by {
                        lemma_addr_contains_push(before, addr, y);
                    }
                    assert(processed@.contains(addr)) by {
                        lemma_addr_contains_push(before, addr, addr);
                    }
                }
            },
            _ => {},
        }
        i = i + 1;
    }

    // The work-list: the given pairs, each still carrying its output.
    let mut work: Vec<(Address, Option<OutputResponse>)> = Vec::new();
    let mut i2: usize = 0;
    while i2 < n0
        invariant
            i2 <= n0,
            n0 == orig.len(),
            utxo_chains@ == orig,
            work@.len() == i2,
            forall|k: int|
                0 <= k < i2 ==> (#[trigger] work@[k]).0 == orig[k].0 && (work@[k].1
                    matches Some(resp) && response_eq(resp, orig[k].1)),
        decreases n0 - i2,
    {
        let pair_addr = utxo_chains[i2].0;
        let cloned = clone_response(&utxo_chains[i2].1);
        work.push((pair_addr, Some(cloned)));
        i2 = i2 + 1;
    }

    let mut result: Vec<(Address, OutputResponse)> = Vec::new();
    proof {
        assert forall|i: int| 0 <= i < orig.len() implies pending_in_work(work@, orig[i]) by {
            assert((#[trigger] work@[i]).0 == orig[i].0 && (work@[i].1 matches Some(resp)
                && response_eq(resp, orig[i].1)));
        }
    }

    #[verifier::loop_isolation(true)]
    while work.len() > 0
        invariant
            ledger.wf(),
            processed.wf(),
            current_time == ledger.current_time,
            orig == old(utxo_chains)@,
            utxo_chains@ == orig,
            // Every address the given outputs answer for is processed.
            forall|a: Address| #[trigger] seeded(orig, a) ==> processed@.contains(a),
            // Every processed chain address is seeded or resolved in the result.
            forall|a: Address|
                #[trigger] processed@.contains(a) && a.spec_is_chain_address() ==> seeded(orig, a)
                    || resolved_in(result@, ledger.entries@, current_time, a),
            // Every chain unlock address in the result is processed or pending.
            forall|k: int|
                0 <= k < result@.len() && (#[trigger] result@[k]).0.spec_is_chain_address()
                    ==> processed@.contains(result@[k].0) || pending_addr(work@, result@[k].0),
            // Under a closed ledger and covered inputs, every pending chain
            // address is answered for or keyed.
            ledger_closed(*ledger) && inputs_covered(*ledger, orig) ==> forall|k: int|
                0 <= k < work@.len() ==> ((#[trigger] work@[k]).0.spec_is_chain_address()
                    ==> seeded(orig, work@[k].0) || keyed(ledger.entries@, work@[k].0)),
            // Every pending carried output is one of the given pairs.
            forall|k: int| 0 <= k < work@.len() ==> carried_from(orig, #[trigger] work@[k]),
            // Every given pair is already in the result or still pending.
            forall|i: int|
                0 <= i < orig.len() ==> in_pairs(result@, #[trigger] orig[i]) || pending_in_work(
                    work@,
                    orig[i],
                ),
            // Every result pair is a given pair or a ledger resolution.
            forall|k: int|
                0 <= k < result@.len() ==> in_pairs(orig, #[trigger] result@[k]) || from_ledger(
                    ledger.entries@,
                    current_time,
                    result@[k],
                ),
        decreases count_unresolved(ledger.entries@, processed@), work@.len(),
    {
        let ghost work_before: Seq<(Address, Option<OutputResponse>)> = work@;
        let ghost processed_before: Seq<Address> = processed@;
        let ghost result_at_head: Seq<(Address, OutputResponse)> = result@;
        let popped = work.pop().unwrap();
        let unlock_address = popped.0;
        let output_response_opt = popped.1;

        // The processed set is the deduplication gate: an address is looked
        // up at most once per run.
        if !processed.contains(unlock_address) {
            processed.insert(unlock_address);
            proof {
                assert(processed@ =~= processed_before.push(unlock_address));
                assert forall|y: Address| #[trigger]
                    processed@.contains(y) implies processed_before.contains(y) || y
                    == unlock_address by {
                    lemma_addr_contains_push(processed_before, unlock_address, y);
                }
                assert forall|y: Address| #[trigger]
                    processed_before.contains(y) implies processed@.contains(y) by {
                    lemma_addr_contains_push(processed_before, unlock_address, y);
                }
                assert(processed@.contains(unlock_address)) by {
                    lemma_addr_contains_push(processed_before, unlock_address, unlock_address);
                }
            }
            if unlock_address.is_chain_address() {
                match ledger.find(unlock_address) {
                    None => {
                        proof {
                            if ledger_closed(*ledger) && inputs_covered(*ledger, orig) {
                                assert(work_before[work_before.len() - 1].0 == unlock_address);
                                assert(seeded(orig, unlock_address) || keyed(
                                    ledger.entries@,
                                    unlock_address,
                                ));
                                assert(!keyed(ledger.entries@, unlock_address));
                                assert(!processed_before.contains(unlock_address));
                                assert(false);
                            }
                        }
                        return Err(Error::OutputNotFound);
                    },
                    Some(idx) => {
                        let entry = &ledger.entries[idx];
                        let controller: Address = match &entry.output {
                            Output::Alias(a) => a.state_controller,
                            Output::Nft(nf) => {
                                match effective_address(&nf.unlock_conditions, current_time) {
                                    Some(a) => a,
                                    None => {
                                        proof {
                                            assert(false);
                                        }
                                        Address::Ed25519(0)
                                    },
                                }
                            },
                            _ => {
                                proof {
                                    assert(false);
                                }
                                Address::Ed25519(0)
                            },
                        };
                        if controller.is_chain_address() {
                            work.push((controller, None));
                        }
                        result.push(
                            (
                                controller,
                                OutputResponse {
                                    output_id: entry.output_id,
                                    output: clone_output(&entry.output),
                                },
                            ),
                        );
                        proof {
                            assert(pair_eq(
                                result@.last(),
                                resolved_pair(ledger.entries@[idx as int], current_time),
                            ));
                            lemma_count_unresolved_insert_hit(
                                ledger.entries@,
                                processed_before,
                                idx as int,
                            );
                            assert(controller == spec_controller(
                                ledger.entries@[idx as int].output,
                                current_time,
                            ));
                            if controller.spec_is_chain_address() {
                                assert(work@.last().0 == controller);
                                assert(pending_addr(work@, controller));
                            }
                            assert(result@[result_at_head.len() as int] == result@.last());
                            assert(exists|e: int|
                                0 <= e < ledger.entries@.len() && (#[trigger] ledger.entries@[e]).address
                                    == unlock_address && pair_eq(
                                    result@[result_at_head.len() as int],
                                    resolved_pair(ledger.entries@[e], current_time),
                                ));
                            if ledger_closed(*ledger) && inputs_covered(*ledger, orig) {
                                assert forall|k: int|
                                    0 <= k < work@.len() implies ((#[trigger] work@[k]).0.spec_is_chain_address()
                                        ==> seeded(orig, work@[k].0) || keyed(
                                        ledger.entries@,
                                        work@[k].0,
                                    )) by {
                                    if k < work_before.len() - 1 {
                                        assert(work@[k] == work_before[k]);
                                    } else {
                                        assert(work@[k].0 == controller);
                                        assert(keyed(ledger.entries@, controller));
                                    }
                                }
                            }
                        }
                    },
                }
            } else {
                proof {
                    lemma_count_unresolved_insert_miss(
                        ledger.entries@,
                        processed_before,
                        unlock_address,
                    );
                }
            }
        } else {
            proof {
                lemma_count_unresolved_nonneg(ledger.entries@, processed@);
            }
        }

        // A carried output re-enters the closed set regardless of whether its
        // address was newly processed.
        match output_response_opt {
            Some(resp) => {
                result.push((unlock_address, resp));
            },
            None => {},
        }
        proof {
            lemma_count_unresolved_nonneg(ledger.entries@, processed@);
            assert forall|i: int|
                0 <= i < orig.len() implies in_pairs(result@, #[trigger] orig[i])
                || pending_in_work(work@, orig[i]) by {
                if pending_in_work(work_before, orig[i]) {
                    let k = choose|k: int|
                        0 <= k < work_before.len() && (#[trigger] work_before[k]).0 == orig[i].0
                            && (work_before[k].1 matches Some(resp) && response_eq(
                            resp,
                            orig[i].1,
                        ));
                    if k < work_before.len() - 1 {
                        assert(work@[k] == work_before[k]);
                        assert(pending_in_work(work@, orig[i]));
                    } else {
                        assert(pair_eq(result@.last(), orig[i]));
                        assert(in_pairs(result@, orig[i]));
                    }
                } else {
                    let k = choose|k: int|
                        0 <= k < result_at_head.len() && pair_eq(
                            #[trigger] result_at_head[k],
                            orig[i],
                        );
                    assert(pair_eq(result@[k], orig[i]));
                }
            }
            assert forall|a: Address|
                #[trigger] processed@.contains(a) && a.spec_is_chain_address() implies seeded(
                orig,
                a,
            ) || resolved_in(result@, ledger.entries@, current_time, a) by {
                if processed_before.contains(a) {
                    if !seeded(orig, a) {
                        let e = choose|e: int|
                            0 <= e < ledger.entries@.len() && (#[trigger] ledger.entries@[e]).address
                                == a && in_pairs(
                                result_at_head,
                                resolved_pair(ledger.entries@[e], current_time),
                            );
                        let k2 = choose|k2: int|
                            0 <= k2 < result_at_head.len() && pair_eq(
                                #[trigger] result_at_head[k2],
                                resolved_pair(ledger.entries@[e], current_time),
                            );
                        assert(result@[k2] == result_at_head[k2]);
                        assert(in_pairs(result@, resolved_pair(ledger.entries@[e], current_time)));
                    }
                } else {
                    assert(a == unlock_address);
                    if a.spec_is_chain_address() {
                        let e = choose|e: int|
                            0 <= e < ledger.entries@.len() && (#[trigger] ledger.entries@[e]).address
                                == unlock_address && pair_eq(
                                result@[result_at_head.len() as int],
                                resolved_pair(ledger.entries@[e], current_time),
                            );
                        assert(in_pairs(result@, resolved_pair(ledger.entries@[e], current_time)));
                    }
                }
            }
            assert forall|k: int|
                0 <= k < result@.len() && (#[trigger] result@[k]).0.spec_is_chain_address()
                    implies processed@.contains(result@[k].0) || pending_addr(
                work@,
                result@[k].0,
            ) by {
                if k < result_at_head.len() {
                    assert(result@[k] == result_at_head[k]);
                    if !processed_before.contains(result_at_head[k].0) {
                        let w = choose|w: int|
                            0 <= w < work_before.len() && (#[trigger] work_before[w]).0
                                == result_at_head[k].0;
                        if w < work_before.len() - 1 {
                            assert(work@[w].0 == work_before[w].0);
                            assert(pending_addr(work@, result@[k].0));
                        } else {
                            assert(result@[k].0 == unlock_address);
                        }
                    }
                } else {
                    if result@[k].0 != unlock_address {
                        assert(pending_addr(work@, result@[k].0));
                    }
                }
            }
        }
    }

    *utxo_chains = result;
    Ok(())
}

} // verus!
