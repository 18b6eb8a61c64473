//! Branch records of the hardware branch-trace facility, and the store that
//! remembers every branch seen.

use crate::outcome::{collect, items, lemma_collect_fails, lemma_collect_next, TraceError};
use crate::text::{
    fields, lines, parse_radix, radix_value, split_fields, split_lines, starts_with, views, COMMA,
};
use std::collections::HashMap;
use vstd::prelude::*;
use vstd::std_specs::hash::group_hash_axioms;
use vstd::string::StringSliceAdditionalSpecFns;

verus! {

/// A control-flow transfer from one code address to another.
///
/// Two branches are the same edge exactly when all three fields agree; the
/// derived `==` is that comparison.  `misc` is a tag that a backend may
/// attach; it is carried through unchanged, and every backend here leaves it
/// zero.
#[derive(Clone, Copy, Debug, PartialEq, Eq, Hash, Structural)]
pub struct BTSBranch {
    /// The address that the branch left.
    pub from: u64,
    /// The address that the branch reached.
    pub to: u64,
    /// The backend's tag.
    pub misc: u64,
}

/// What one line of the facility's output holds.  A line that begins with
/// `branch` is a record: its second and third comma-separated fields are the
/// decimal addresses the branch left and reached.  Any other line holds
/// nothing.
pub open spec fn branch_line(line: Seq<u8>) -> Result<Seq<BTSBranch>, TraceError> {
    let parts = fields(line, COMMA);
    if !"branch".spec_bytes().is_prefix_of(line) {
        Ok(Seq::empty())
    } else if parts.len() < 3 {
        Err(TraceError::MissingField)
    } else {
        match (radix_value(parts[1], 10), radix_value(parts[2], 10)) {
            (Some(from), Some(to)) => Ok(seq![BTSBranch { from, to, misc: 0 }]),
            _ => Err(TraceError::BadNumber),
        }
    }
}

/// The branches that the facility's output records, line by line.
pub open spec fn branch_records(output: Seq<u8>) -> Result<Seq<BTSBranch>, TraceError> {
    collect(lines(output).map_values(|line: Seq<u8>| branch_line(line)))
}

/// Reads one line of the facility's output.
fn read_branch_line(line: &[u8]) -> (r: Result<Option<BTSBranch>, TraceError>)
    ensures
        branch_line(line@) == match r {
            Ok(Some(branch)) => Ok::<Seq<BTSBranch>, TraceError>(seq![branch]),
            Ok(None) => Ok(Seq::empty()),
            Err(e) => Err(e),
        },
{
    if !starts_with(line, "branch".as_bytes()) {
        return Ok(None);
    }
    let parts = split_fields(line, COMMA);
    if parts.len() < 3 {
        return Err(TraceError::MissingField);
    }
    assert(views(parts@)[1] == parts@[1]@ && views(parts@)[2] == parts@[2]@);
    match (parse_radix(parts[1], 10), parse_radix(parts[2], 10)) {
        (Some(from), Some(to)) => Ok(Some(BTSBranch { from, to, misc: 0 })),
        _ => Err(TraceError::BadNumber),
    }
}

/// Reads the branches out of the facility's output.
///
/// Every line that begins with `branch` must be a well-formed record; the
/// first one that is not fails the whole trace, so that no partial trace is
/// ever taken for coverage.
pub fn trace2(output: &[u8]) -> (r: Result<Vec<BTSBranch>, TraceError>)
    ensures
        items(r) == branch_records(output@),
{
    let all = split_lines(output);
    let ghost parts = lines(output@).map_values(|line: Seq<u8>| branch_line(line));
    let mut branches: Vec<BTSBranch> = Vec::new();
    let mut n: usize = 0;
    while n < all.len()
        invariant
            n <= all.len(),
            views(all@) == lines(output@),
            parts == lines(output@).map_values(|line: Seq<u8>| branch_line(line)),
            collect(parts.take(n as int)) == Ok::<Seq<BTSBranch>, TraceError>(branches@),
        decreases all.len() - n,
    {
        proof {
            assert(views(all@)[n as int] == all@[n as int]@);
            lemma_collect_next(parts, n as int);
        }
        match read_branch_line(all[n]) {
            Ok(Some(branch)) => {
                let ghost before = branches@;
                branches.push(branch);
                assert(branches@ =~= before + seq![branch]);
            },
            Ok(None) => {
                assert(branches@ + Seq::<BTSBranch>::empty() =~= branches@);
            },
            Err(e) => {
                proof {
                    lemma_collect_fails(parts, n as int + 1);
                }
                return Err(e);
            },
        }
        n += 1;
    }
    assert(parts.take(n as int) =~= parts);
    Ok(branches)
}

/// What a call into the native tracing library came to: a negative status
/// is the library's error code, anything else its answer.
pub fn trace_status(status: i32) -> (r: Result<i32, i32>)
    ensures
        r == if status < 0 {
            Err::<i32, i32>(status)
        } else {
            Ok(status)
        },
{
    if status < 0 {
        Err(status)
    } else {
        Ok(status)
    }
}

/// What a hit counter shows after `count` hits: the count itself, or the
/// largest number that 64 bits hold once the count has passed it.
pub open spec fn capped(count: nat) -> nat {
    if count <= u64::MAX {
        count
    } else {
        u64::MAX as nat
    }
}

/// How often `branch` occurs in `batch`.
pub open spec fn occurrences(batch: Seq<BTSBranch>, branch: BTSBranch) -> nat
    decreases batch.len(),
{
    if batch.len() == 0 {
        0
    } else {
        occurrences(batch.drop_last(), branch) + if batch.last() == branch {
            1nat
        } else {
            0nat
        }
    }
}

/// The hits that `known` records for `branch`: none for a branch it does not
/// hold.
pub open spec fn hits_in(known: Map<BTSBranch, nat>, branch: BTSBranch) -> nat {
    if known.contains_key(branch) {
        known[branch]
    } else {
        0
    }
}

/// What is known after `batch` is merged into `known`: every branch known
/// before or held by the batch, each with its earlier hits and its
/// occurrences in the batch.
pub open spec fn merged(known: Map<BTSBranch, nat>, batch: Seq<BTSBranch>) -> Map<BTSBranch, nat> {
    Map::new(
        |branch: BTSBranch| known.contains_key(branch) || batch.contains(branch),
        |branch: BTSBranch| capped(hits_in(known, branch) + occurrences(batch, branch)),
    )
}

/// How many distinct branches of `batch` are not in `known`.
pub open spec fn novelty(known: Map<BTSBranch, nat>, batch: Seq<BTSBranch>) -> nat {
    batch.to_set().difference(known.dom()).len()
}

/// What is known after the batches were merged, one after the other, into a
/// store that knew nothing.
pub open spec fn merged_all(batches: Seq<Seq<BTSBranch>>) -> Map<BTSBranch, nat>
    decreases batches.len(),
{
    if batches.len() == 0 {
        Map::empty()
    } else {
        merged(merged_all(batches.drop_last()), batches.last())
    }
}

/// The branches that any of the batches holds.
pub open spec fn ever_merged(batches: Seq<Seq<BTSBranch>>) -> Set<BTSBranch> {
    Set::new(
        |branch: BTSBranch| exists|i: int| 0 <= i < batches.len() && #[trigger] batches[i].contains(branch),
    )
}

/// A branch occurs in a batch at least once exactly when the batch holds it.
pub proof fn lemma_occurrences(batch: Seq<BTSBranch>, branch: BTSBranch)
    ensures
        occurrences(batch, branch) > 0 <==> batch.contains(branch),
    decreases batch.len(),
{
    if batch.len() > 0 {
        let front = batch.drop_last();
        lemma_occurrences(front, branch);
        if front.contains(branch) {
            let i = choose|i: int| 0 <= i < front.len() && front[i] == branch;
            assert(batch[i] == branch);
        }
        if batch.contains(branch) && batch.last() != branch {
            let i = choose|i: int| 0 <= i < batch.len() && batch[i] == branch;
            assert(front[i] == branch);
        }
        if batch.last() == branch {
            assert(batch[batch.len() - 1] == branch);
        }
    }
}

/// Merging a batch is merging its branches one by one: the branch at `n`
/// gets one more hit on top of what the branches before it left.
pub proof fn lemma_merged_next(known: Map<BTSBranch, nat>, batch: Seq<BTSBranch>, n: int)
    requires
        0 <= n < batch.len(),
    ensures
        merged(known, batch.take(n + 1)) == merged(known, batch.take(n)).insert(
            batch[n],
            capped(hits_in(merged(known, batch.take(n)), batch[n]) + 1),
        ),
{
    let before = batch.take(n);
    let after = batch.take(n + 1);
    let next = batch[n];
    assert(after.drop_last() =~= before);
    assert(after.last() == next);
    assert forall|branch: BTSBranch| after.contains(branch) <==> before.contains(branch) || branch
        == next by {
        lemma_occurrences(after, branch);
        lemma_occurrences(before, branch);
    }
    lemma_occurrences(before, next);
    assert(merged(known, after) =~= merged(known, before).insert(
        next,
        capped(hits_in(merged(known, before), next) + 1),
    ));
}

/// The branches known after a merge are those known before and those of the
/// batch.  None is lost, and their number rises by the novelty of the batch.
pub proof fn lemma_merged_grows(known: Map<BTSBranch, nat>, batch: Seq<BTSBranch>)
    requires
        known.dom().finite(),
    ensures
        merged(known, batch).dom() == known.dom().union(batch.to_set()),
        merged(known, batch).dom().finite(),
        known.dom().len() <= merged(known, batch).dom().len(),
        merged(known, batch).dom().len() == known.dom().len() + novelty(known, batch),
{
    broadcast use vstd::set::group_set_axioms;

    vstd::seq_lib::seq_to_set_is_finite(batch);
    assert(merged(known, batch).dom() =~= known.dom().union(batch.to_set()));
    vstd::set_lib::lemma_len_union(known.dom(), batch.to_set());
    vstd::set_lib::lemma_len_difference(batch.to_set(), known.dom());
    vstd::set_lib::lemma_set_disjoint_lens(known.dom(), batch.to_set().difference(known.dom()));
    assert(known.dom().union(batch.to_set().difference(known.dom())) =~= known.dom().union(
        batch.to_set(),
    ));
}

/// The novelty of a batch counts its branches one by one: the branch at `n`
/// is new when neither the store nor the branches before it hold it.
pub proof fn lemma_novelty_next(known: Map<BTSBranch, nat>, batch: Seq<BTSBranch>, n: int)
    requires
        0 <= n < batch.len(),
        known.dom().finite(),
    ensures
        novelty(known, batch.take(n + 1)) == novelty(known, batch.take(n)) + if merged(
            known,
            batch.take(n),
        ).contains_key(batch[n]) {
            0nat
        } else {
            1nat
        },
{
    broadcast use vstd::set::group_set_axioms;

    let before = batch.take(n);
    let after = batch.take(n + 1);
    let next = batch[n];
    assert(after =~= before.push(next));
    before.lemma_push_to_set_commute(next);
    vstd::seq_lib::seq_to_set_is_finite(before);
    let fresh = before.to_set().difference(known.dom());
    if merged(known, before).contains_key(next) {
        assert(after.to_set().difference(known.dom()) =~= fresh);
    } else {
        assert(after.to_set().difference(known.dom()) =~= fresh.insert(next));
    }
}

/// However many batches are merged, the store knows exactly the branches
/// that some batch held, and the number it knows never falls from one merge
/// to a later one.
pub proof fn lemma_total_distinct(batches: Seq<Seq<BTSBranch>>)
    ensures
        merged_all(batches).dom() == ever_merged(batches),
        merged_all(batches).dom().finite(),
        forall|n: int, k: int|
            0 <= n <= k <= batches.len() ==> #[trigger] merged_all(batches.take(n)).dom().len()
                <= #[trigger] merged_all(batches.take(k)).dom().len(),
    decreases batches.len(),
{
    if batches.len() == 0 {
        assert(merged_all(batches).dom() =~= ever_merged(batches));
        assert forall|n: int, k: int| 0 <= n <= k <= batches.len() implies #[trigger] merged_all(
            batches.take(n),
        ).dom().len() <= #[trigger] merged_all(batches.take(k)).dom().len() by {
            assert(batches.take(n) =~= batches.take(k));
        }
    } else {
        let front = batches.drop_last();
        lemma_total_distinct(front);
        lemma_merged_grows(merged_all(front), batches.last());
        assert forall|branch: BTSBranch|
            ever_merged(batches).contains(branch) <==> ever_merged(front).contains(branch)
                || batches.last().contains(branch) by {
            if ever_merged(front).contains(branch) {
                let i = choose|i: int| 0 <= i < front.len() && #[trigger] front[i].contains(branch);
                assert(batches[i].contains(branch));
            }
            if batches.last().contains(branch) {
                assert(batches[batches.len() - 1].contains(branch));
            }
            if ever_merged(batches).contains(branch) && !batches.last().contains(branch) {
                let i = choose|i: int|
                    0 <= i < batches.len() && #[trigger] batches[i].contains(branch);
                assert(front[i].contains(branch));
            }
        }
        assert(merged_all(batches).dom() =~= ever_merged(batches));
        assert forall|n: int, k: int| 0 <= n <= k <= batches.len() implies #[trigger] merged_all(
            batches.take(n),
        ).dom().len() <= #[trigger] merged_all(batches.take(k)).dom().len() by {
            assert(batches.take(batches.len() as int) =~= batches);
            assert(front.take(front.len() as int) =~= front);
            if k < batches.len() {
                assert(batches.take(n) =~= front.take(n));
                assert(batches.take(k) =~= front.take(k));
            } else if n < batches.len() {
                assert(batches.take(n) =~= front.take(n));
                assert(merged_all(front.take(n)).dom().len() <= merged_all(
                    front.take(front.len() as int),
                ).dom().len());
            }
        }
    }
}

/// The order of the branches in a batch does not matter: two batches that
/// hold every branch equally often leave the same store behind and are
/// equally new to it.
pub proof fn lemma_merge_order(known: Map<BTSBranch, nat>, one: Seq<BTSBranch>, other: Seq<BTSBranch>)
    requires
        forall|branch: BTSBranch| occurrences(one, branch) == occurrences(other, branch),
    ensures
        merged(known, one) == merged(known, other),
        novelty(known, one) == novelty(known, other),
{
    assert forall|branch: BTSBranch| one.contains(branch) <==> other.contains(branch) by {
        lemma_occurrences(one, branch);
        lemma_occurrences(other, branch);
    }
    assert(merged(known, one) =~= merged(known, other));
    assert(one.to_set() =~= other.to_set());
}

/// A merge takes no hit away: a branch has at least the hits it had before,
/// and more if the batch holds it and its counter is not full.
pub proof fn lemma_hits_never_fall(known: Map<BTSBranch, nat>, batch: Seq<BTSBranch>, branch: BTSBranch)
    requires
        hits_in(known, branch) <= u64::MAX,
    ensures
        hits_in(merged(known, batch), branch) >= hits_in(known, branch),
        batch.contains(branch) && hits_in(known, branch) < u64::MAX ==> hits_in(
            merged(known, batch),
            branch,
        ) > hits_in(known, branch),
{
    lemma_occurrences(batch, branch);
}

/// A batch that is merged a second time holds nothing new, and the store
/// knows the same branches after as before.
pub proof fn lemma_merge_twice(known: Map<BTSBranch, nat>, batch: Seq<BTSBranch>)
    requires
        known.dom().finite(),
    ensures
        novelty(merged(known, batch), batch) == 0,
        merged(merged(known, batch), batch).dom() == merged(known, batch).dom(),
        merged(merged(known, batch), batch).dom().len() == merged(known, batch).dom().len(),
{
    let once = merged(known, batch);
    lemma_merged_grows(known, batch);
    lemma_merged_grows(once, batch);
    assert(batch.to_set().difference(once.dom()) =~= Set::<BTSBranch>::empty());
    assert(merged(once, batch).dom() =~= once.dom());
}

/// Every branch seen since the store was made, each with the number of times
/// it was seen.  Nothing is ever taken out.
pub struct BranchStore {
    /// The distinct branches, in the order in which they were first seen.
    seen: Vec<BTSBranch>,
    /// `counts[i]` is how often `seen[i]` was seen.
    counts: Vec<u64>,
    /// Where each branch stands in `seen`: by its two addresses, then by its
    /// tag.
    index: HashMap<u128, HashMap<u64, usize>>,
}

/// The two addresses of a branch as one number: `from` in the upper 64 bits,
/// `to` in the lower.
spec fn endpoints(branch: BTSBranch) -> u128 {
    (branch.from as u128 * 0x1_0000_0000_0000_0000 + branch.to as u128) as u128
}

/// Whether the index has an entry for the addresses `key` and the tag `tag`.
spec fn indexed(index: Map<u128, HashMap<u64, usize>>, key: u128, tag: u64) -> bool {
    index.contains_key(key) && index[key]@.contains_key(tag)
}

/// The place that the index gives for `branch`.
spec fn place(index: Map<u128, HashMap<u64, usize>>, branch: BTSBranch) -> Option<usize> {
    if indexed(index, endpoints(branch), branch.misc) {
        Some(index[endpoints(branch)]@[branch.misc])
    } else {
        None
    }
}

/// Branches with the same two addresses have the same number, and no others.
proof fn lemma_endpoints(a: BTSBranch, b: BTSBranch)
    ensures
        endpoints(a) == endpoints(b) <==> a.from == b.from && a.to == b.to,
{
}

/// Computes the number that stands for the two addresses of `branch`.
fn key_of(branch: &BTSBranch) -> (key: u128)
    ensures
        key == endpoints(*branch),
{
    branch.from as u128 * 0x1_0000_0000_0000_0000 + branch.to as u128
}

/// Where a sequence without repetition holds an item, there and nowhere else
/// is it found.
proof fn lemma_found_at(seen: Seq<BTSBranch>, i: int)
    requires
        seen.no_duplicates(),
        0 <= i < seen.len(),
    ensures
        seen.contains(seen[i]),
        seen.index_of(seen[i]) == i,
{
}

impl View for BranchStore {
    type V = Map<BTSBranch, nat>;

    /// The hits of every branch that was seen.
    closed spec fn view(&self) -> Map<BTSBranch, nat> {
        Map::new(
            |branch: BTSBranch| self.seen@.contains(branch),
            |branch: BTSBranch| self.counts@[self.seen@.index_of(branch)] as nat,
        )
    }
}

impl BranchStore {
    /// The store's invariant: no branch is held twice, every branch held was
    /// seen at least once, and the index finds exactly the branches held.
    pub closed spec fn wf(&self) -> bool {
        &&& self.seen@.len() == self.counts@.len()
        &&& self.seen@.no_duplicates()
        &&& forall|i: int| 0 <= i < self.counts@.len() ==> self.counts@[i] >= 1
        &&& forall|i: int|
            0 <= i < self.seen@.len() ==> #[trigger] place(self.index@, self.seen@[i]) == Some(
                i as usize,
            )
        &&& forall|key: u128, tag: u64| #[trigger]
            indexed(self.index@, key, tag) ==> {
                let i = self.index@[key]@[tag];
                &&& i < self.seen@.len()
                &&& endpoints(self.seen@[i as int]) == key
                &&& self.seen@[i as int].misc == tag
            }
    }

    /// The branches known are the branches held, each once.
    proof fn lemma_held(&self)
        requires
            self.wf(),
        ensures
            self@.dom().finite(),
            self@.dom().len() == self.seen@.len(),
    {
        vstd::seq_lib::seq_to_set_is_finite(self.seen@);
        self.seen@.unique_seq_to_set();
        assert(self@.dom() =~= self.seen@.to_set());
    }

    /// A well-formed store knows finitely many branches, each with at least
    /// one hit and no more than a counter can hold.
    pub proof fn lemma_view(&self)
        requires
            self.wf(),
        ensures
            self@.dom().finite(),
            forall|branch: BTSBranch| #[trigger]
                self@.contains_key(branch) ==> 1 <= self@[branch] <= u64::MAX,
    {
        self.lemma_held();
        assert forall|branch: BTSBranch| #[trigger] self@.contains_key(branch) implies 1
            <= self@[branch] <= u64::MAX by {
            let i = self.seen@.index_of(branch);
            assert(0 <= i < self.counts@.len());
        }
    }

    /// A store that has seen nothing.
    pub fn empty() -> (store: BranchStore)
        ensures
            store.wf(),
            store@ == Map::<BTSBranch, nat>::empty(),
    {
        let store = BranchStore { seen: Vec::new(), counts: Vec::new(), index: HashMap::new() };
        assert(store@ =~= Map::<BTSBranch, nat>::empty());
        store
    }

    /// How many distinct branches were seen.
    pub fn total_distinct(&self) -> (total: u64)
        requires
            self.wf(),
        ensures
            total == self@.dom().len(),
    {
        proof {
            self.lemma_held();
        }
        self.seen.len() as u64
    }

    /// Where `branch` stands among the branches seen, if it was seen.
    fn find(&self, branch: &BTSBranch) -> (at: Option<usize>)
        requires
            self.wf(),
        ensures
            match at {
                Some(i) => i < self.seen@.len() && self.seen@[i as int] == *branch,
                None => !self.seen@.contains(*branch),
            },
    {
        broadcast use group_hash_axioms;

        let key = key_of(branch);
        let at = match self.index.get(&key) {
            Some(by_tag) => match by_tag.get(&branch.misc) {
                Some(i) => Some(*i),
                None => None,
            },
            None => None,
        };
        proof {
            match at {
                Some(i) => {
                    assert(indexed(self.index@, key, branch.misc));
                    lemma_endpoints(self.seen@[i as int], *branch);
                },
                None => {
                    assert(place(self.index@, *branch) is None);
                    if self.seen@.contains(*branch) {
                        let i = self.seen@.index_of(*branch);
                        assert(place(self.index@, self.seen@[i]) == Some(i as usize));
                    }
                },
            }
        }
        at
    }

    /// How often `branch` was seen; a counter that is full stays full.
    pub fn hits(&self, branch: &BTSBranch) -> (count: u64)
        requires
            self.wf(),
        ensures
            count == hits_in(self@, *branch),
    {
        match self.find(branch) {
            Some(i) => {
                proof {
                    lemma_found_at(self.seen@, i as int);
                }
                self.counts[i]
            },
            None => 0,
        }
    }

    /// Counts one more sighting of `branch`, and says whether it was the
    /// first.
    fn record(&mut self, branch: BTSBranch) -> (fresh: bool)
        requires
            old(self).wf(),
        ensures
            final(self).wf(),
            fresh == !old(self)@.contains_key(branch),
            final(self)@ == old(self)@.insert(branch, capped(hits_in(old(self)@, branch) + 1)),
    {
        broadcast use group_hash_axioms;

        match self.find(&branch) {
            Some(i) => {
                let count = self.counts[i].saturating_add(1);
                self.counts.set(i, count);
                proof {
                    lemma_found_at(self.seen@, i as int);
                    assert forall|other: BTSBranch| self.seen@.contains(other) implies (
                    #[trigger] self@[other]) == old(self)@.insert(
                        branch,
                        capped(hits_in(old(self)@, branch) + 1),
                    )[other] by {
                        let j = self.seen@.index_of(other);
                        lemma_found_at(self.seen@, j);
                    }
                    assert(self@ =~= old(self)@.insert(
                        branch,
                        capped(hits_in(old(self)@, branch) + 1),
                    ));
                }
                false
            },
            None => {
                let key = key_of(&branch);
                let at = self.seen.len();
                let mut by_tag = match self.index.remove(&key) {
                    Some(by_tag) => by_tag,
                    None => HashMap::new(),
                };
                by_tag.insert(branch.misc, at);
                self.index.insert(key, by_tag);
                self.seen.push(branch);
                self.counts.push(1);
                proof {
                    let before = old(self).seen@;
                    assert(self.seen@ == before.push(branch));
                    assert forall|i: int| 0 <= i < self.seen@.len() implies #[trigger] place(
                        self.index@,
                        self.seen@[i],
                    ) == Some(i as usize) by {
                        if i < before.len() {
                            assert(place(old(self).index@, before[i]) == Some(i as usize));
                            lemma_endpoints(before[i], branch);
                        }
                    }
                    assert forall|k: u128, tag: u64| #[trigger]
                        indexed(self.index@, k, tag) implies {
                        let i = self.index@[k]@[tag];
                        &&& i < self.seen@.len()
                        &&& endpoints(self.seen@[i as int]) == k
                        &&& self.seen@[i as int].misc == tag
                    } by {
                        if !(k == key && tag == branch.misc) {
                            assert(indexed(old(self).index@, k, tag));
                        }
                    }
                    assert forall|other: BTSBranch| self.seen@.contains(other) implies (
                    #[trigger] self@[other]) == old(self)@.insert(branch, 1)[other] by {
                        let j = self.seen@.index_of(other);
                        lemma_found_at(self.seen@, j);
                        if other != branch {
                            lemma_found_at(before, j);
                        }
                    }
                    assert forall|other: BTSBranch|
                        self.seen@.contains(other) <==> before.contains(other) || other
                            == branch by {
                        if before.contains(other) {
                            let j = before.index_of(other);
                            assert(self.seen@[j] == other);
                        }
                        if other == branch {
                            assert(self.seen@[before.len() as int] == other);
                        }
                    }
                    assert(self@ =~= old(self)@.insert(branch, 1));
                }
                true
            },
        }
    }

    /// Merges the branches of one execution into the store and returns how
    /// many of them it had never seen.  A branch that occurs in the batch
    /// more than once is new at most once; every occurrence counts as a hit.
    pub fn add(&mut self, branches: &[BTSBranch]) -> (new: usize)
        requires
            old(self).wf(),
        ensures
            final(self).wf(),
            final(self)@ == merged(old(self)@, branches@),
            new == novelty(old(self)@, branches@),
    {
        let mut new: usize = 0;
        let mut n: usize = 0;
        proof {
            old(self).lemma_view();
            let nothing = branches@.take(0);
            assert(nothing =~= Seq::<BTSBranch>::empty());
            assert(nothing.to_set().difference(self@.dom()) =~= Set::<BTSBranch>::empty());
            assert(merged(self@, nothing) =~= self@);
        }
        while n < branches.len()
            invariant
                n <= branches.len(),
                new <= n,
                self.wf(),
                old(self)@.dom().finite(),
                self@ == merged(old(self)@, branches@.take(n as int)),
                new == novelty(old(self)@, branches@.take(n as int)),
            decreases branches.len() - n,
        {
            proof {
                lemma_merged_next(old(self)@, branches@, n as int);
                lemma_novelty_next(old(self)@, branches@, n as int);
            }
            if self.record(branches[n]) {
                new += 1;
            }
            n += 1;
        }
        assert(branches@.take(n as int) =~= branches@);
        new
    }
}

} // verus!
