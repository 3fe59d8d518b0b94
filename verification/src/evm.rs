//! Outcomes of EVM executions, the behaviour that backends are compared on,
//! and the in-memory EVM that produces them.

use crate::bytes::{
    bytes_eq, bytes_le, lemma_lex_antisymmetric, lemma_lex_reflexive, lemma_lex_total,
    lemma_lex_transitive, lex_le,
};
use vstd::prelude::*;

verus! {

/// Intrinsic gas that every transaction pays before any code runs.
pub const BASE_TRANSACTION_GAS: u64 = 21_000;

/// A log emitted during an execution.
#[derive(Debug, Clone)]
pub struct EvmLog {
    pub address: [u8; 20],
    pub topics: Vec<[u8; 32]>,
    pub data: Vec<u8>,
}

/// The mathematical content of a log.
pub struct LogModel {
    pub address: Seq<u8>,
    pub topics: Seq<Seq<u8>>,
    pub data: Seq<u8>,
}

impl View for EvmLog {
    type V = LogModel;

    open spec fn view(&self) -> LogModel {
        LogModel {
            address: self.address@,
            topics: self.topics@.map_values(|t: [u8; 32]| t@),
            data: self.data@,
        }
    }
}

/// How an execution ended.
#[derive(Debug, Clone)]
pub enum ExecutionStatus {
    Success,
    Revert,
    Halt(String),
}

/// The mathematical content of an execution status.
pub enum StatusModel {
    Success,
    Revert,
    Halt(Seq<char>),
}

impl View for ExecutionStatus {
    type V = StatusModel;

    open spec fn view(&self) -> StatusModel {
        match self {
            ExecutionStatus::Success => StatusModel::Success,
            ExecutionStatus::Revert => StatusModel::Revert,
            ExecutionStatus::Halt(reason) => StatusModel::Halt(reason@),
        }
    }
}

/// A storage slot whose value an execution changed, with its new value.
#[derive(Debug, Clone, Copy)]
pub struct StorageChange {
    pub address: [u8; 20],
    pub key: [u8; 32],
    pub value: [u8; 32],
}

/// The bytes by which storage changes are ordered: address, then key, then
/// value, each big-endian, which is the order of `(Address, U256, U256)`.
pub open spec fn change_order_key(c: StorageChange) -> Seq<u8> {
    c.address@ + c.key@ + c.value@
}

/// `a` comes before or equals `b` in the order of storage changes.
pub open spec fn change_le(a: StorageChange, b: StorageChange) -> bool {
    lex_le(change_order_key(a), change_order_key(b))
}

/// The changes are sorted by address, key and value.
pub open spec fn changes_sorted(s: Seq<StorageChange>) -> bool {
    forall|i: int, j: int| 0 <= i < j < s.len() ==> change_le(#[trigger] s[i], #[trigger] s[j])
}

/// Everything that an execution produced.
#[derive(Debug, Clone)]
pub struct ExecutionOutcome {
    pub status: ExecutionStatus,
    pub output: Vec<u8>,
    pub logs: Vec<EvmLog>,
    pub storage_changes: Vec<StorageChange>,
    pub gas_used: u64,
}

/// The result of running a contract's initcode.
#[derive(Debug, Clone)]
pub struct DeployOutcome {
    pub address: [u8; 20],
    pub runtime_bytecode: Vec<u8>,
    pub init: ExecutionOutcome,
}

/// What an execution did, leaving out the gas it used: the part that must not
/// depend on the backend that compiled the code.
#[derive(Debug, Clone)]
pub struct Behavior {
    pub status: ExecutionStatus,
    pub output: Vec<u8>,
    pub logs: Vec<EvmLog>,
    pub storage_changes: Vec<StorageChange>,
}

/// The mathematical content of a behaviour.
pub struct BehaviorModel {
    pub status: StatusModel,
    pub output: Seq<u8>,
    pub logs: Seq<LogModel>,
    pub storage_changes: Seq<StorageChange>,
}

pub open spec fn logs_model(logs: Seq<EvmLog>) -> Seq<LogModel> {
    logs.map_values(|l: EvmLog| l@)
}

impl View for Behavior {
    type V = BehaviorModel;

    open spec fn view(&self) -> BehaviorModel {
        BehaviorModel {
            status: self.status@,
            output: self.output@,
            logs: logs_model(self.logs@),
            storage_changes: self.storage_changes@,
        }
    }
}

impl ExecutionOutcome {
    /// The behaviour of this outcome: everything but the gas.
    pub open spec fn behavior_model(&self) -> BehaviorModel {
        BehaviorModel {
            status: self.status@,
            output: self.output@,
            logs: logs_model(self.logs@),
            storage_changes: self.storage_changes@,
        }
    }

    /// What the execution did, without the gas it used.
    pub fn behavior(&self) -> (b: Behavior)
        ensures
            b@ == self.behavior_model(),
    {
        Behavior {
            status: self.status.copy(),
            output: copy_bytes(&self.output),
            logs: copy_logs(&self.logs),
            storage_changes: copy_changes(&self.storage_changes),
        }
    }
}

impl ExecutionStatus {
    /// A copy of this status.
    pub fn copy(&self) -> (s: ExecutionStatus)
        ensures
            s@ == self@,
    {
        match self {
            ExecutionStatus::Success => ExecutionStatus::Success,
            ExecutionStatus::Revert => ExecutionStatus::Revert,
            ExecutionStatus::Halt(reason) => ExecutionStatus::Halt(reason.clone()),
        }
    }

    pub fn is_success(&self) -> (r: bool)
        ensures
            r == (self@ == StatusModel::Success),
    {
        match self {
            ExecutionStatus::Success => true,
            _ => false,
        }
    }

    pub fn is_revert(&self) -> (r: bool)
        ensures
            r == (self@ == StatusModel::Revert),
    {
        match self {
            ExecutionStatus::Revert => true,
            _ => false,
        }
    }
}

/// A copy of a byte string.
pub fn copy_bytes(bytes: &[u8]) -> (v: Vec<u8>)
    ensures
        v@ == bytes@,
{
    let mut v: Vec<u8> = Vec::new();
    let mut i: usize = 0;
    while i < bytes.len()
        invariant
            i <= bytes@.len(),
            v@ == bytes@.take(i as int),
        decreases bytes@.len() - i,
    {
        v.push(bytes[i]);
        assert(bytes@.take(i + 1) == bytes@.take(i as int).push(bytes@[i as int]));
        i = i + 1;
    }
    assert(bytes@.take(bytes@.len() as int) == bytes@);
    v
}

fn copy_words(words: &[[u8; 32]]) -> (v: Vec<[u8; 32]>)
    ensures
        v@ == words@,
{
    let mut v: Vec<[u8; 32]> = Vec::new();
    let mut i: usize = 0;
    while i < words.len()
        invariant
            i <= words@.len(),
            v@ == words@.take(i as int),
        decreases words@.len() - i,
    {
        v.push(words[i]);
        assert(words@.take(i + 1) == words@.take(i as int).push(words@[i as int]));
        i = i + 1;
    }
    assert(words@.take(words@.len() as int) == words@);
    v
}

impl EvmLog {
    /// A copy of this log.
    pub fn copy(&self) -> (l: EvmLog)
        ensures
            l@ == self@,
    {
        let topics = copy_words(&self.topics);
        proof {
            assert(topics@.map_values(|t: [u8; 32]| t@) == self.topics@.map_values(
                |t: [u8; 32]| t@,
            ));
        }
        EvmLog { address: self.address, topics, data: copy_bytes(&self.data) }
    }
}

/// A copy of a list of logs.
pub fn copy_logs(logs: &[EvmLog]) -> (v: Vec<EvmLog>)
    ensures
        logs_model(v@) == logs_model(logs@),
{
    let mut v: Vec<EvmLog> = Vec::new();
    let mut i: usize = 0;
    while i < logs.len()
        invariant
            i <= logs@.len(),
            v@.len() == i,
            forall|k: int| 0 <= k < i ==> (#[trigger] v@[k])@ == logs@[k]@,
        decreases logs@.len() - i,
    {
        v.push(logs[i].copy());
        i = i + 1;
    }
    assert(logs_model(v@) == logs_model(logs@));
    v
}

/// A copy of a list of storage changes.
pub fn copy_changes(changes: &[StorageChange]) -> (v: Vec<StorageChange>)
    ensures
        v@ == changes@,
{
    let mut v: Vec<StorageChange> = Vec::new();
    let mut i: usize = 0;
    while i < changes.len()
        invariant
            i <= changes@.len(),
            v@ == changes@.take(i as int),
        decreases changes@.len() - i,
    {
        v.push(changes[i]);
        assert(changes@.take(i + 1) == changes@.take(i as int).push(changes@[i as int]));
        i = i + 1;
    }
    assert(changes@.take(changes@.len() as int) == changes@);
    v
}

/// Appends a byte string to a vector.
pub fn append_bytes(v: &mut Vec<u8>, bytes: &[u8])
    ensures
        final(v)@ == old(v)@ + bytes@,
{
    let mut i: usize = 0;
    while i < bytes.len()
        invariant
            i <= bytes@.len(),
            v@ == old(v)@ + bytes@.take(i as int),
        decreases bytes@.len() - i,
    {
        v.push(bytes[i]);
        assert(bytes@.take(i + 1) == bytes@.take(i as int).push(bytes@[i as int]));
        i = i + 1;
    }
    assert(bytes@.take(bytes@.len() as int) == bytes@);
}

/// Whether two statuses are the same.
pub fn status_eq(a: &ExecutionStatus, b: &ExecutionStatus) -> (r: bool)
    ensures
        r == (a@ == b@),
{
    match (a, b) {
        (ExecutionStatus::Success, ExecutionStatus::Success) => true,
        (ExecutionStatus::Revert, ExecutionStatus::Revert) => true,
        (ExecutionStatus::Halt(x), ExecutionStatus::Halt(y)) => x.eq(y),
        _ => false,
    }
}

fn words_eq(a: &[[u8; 32]], b: &[[u8; 32]]) -> (r: bool)
    ensures
        r == (a@.map_values(|t: [u8; 32]| t@) == b@.map_values(|t: [u8; 32]| t@)),
{
    let ghost ma = a@.map_values(|t: [u8; 32]| t@);
    let ghost mb = b@.map_values(|t: [u8; 32]| t@);
    if a.len() != b.len() {
        assert(ma.len() != mb.len());
        return false;
    }
    let mut i: usize = 0;
    while i < a.len()
        invariant
            i <= a@.len(),
            a@.len() == b@.len(),
            ma == a@.map_values(|t: [u8; 32]| t@),
            mb == b@.map_values(|t: [u8; 32]| t@),
            forall|k: int| 0 <= k < i ==> ma[k] == mb[k],
        decreases a@.len() - i,
    {
        if !bytes_eq(a[i].as_slice(), b[i].as_slice()) {
            assert(ma[i as int] != mb[i as int]);
            return false;
        }
        i = i + 1;
    }
    assert(ma == mb);
    true
}

/// Whether two logs are the same.
pub fn log_eq(a: &EvmLog, b: &EvmLog) -> (r: bool)
    ensures
        r == (a@ == b@),
{
    bytes_eq(a.address.as_slice(), b.address.as_slice()) && words_eq(&a.topics, &b.topics)
        && bytes_eq(&a.data, &b.data)
}

/// Whether two lists of logs are the same.
pub fn logs_eq(a: &[EvmLog], b: &[EvmLog]) -> (r: bool)
    ensures
        r == (logs_model(a@) == logs_model(b@)),
{
    if a.len() != b.len() {
        assert(logs_model(a@).len() != logs_model(b@).len());
        return false;
    }
    let mut i: usize = 0;
    while i < a.len()
        invariant
            i <= a@.len(),
            a@.len() == b@.len(),
            forall|k: int| 0 <= k < i ==> (#[trigger] a@[k])@ == b@[k]@,
        decreases a@.len() - i,
    {
        if !log_eq(&a[i], &b[i]) {
            assert(logs_model(a@)[i as int] != logs_model(b@)[i as int]);
            return false;
        }
        i = i + 1;
    }
    assert(logs_model(a@) == logs_model(b@));
    true
}

fn change_eq(a: &StorageChange, b: &StorageChange) -> (r: bool)
    ensures
        r == (a == b),
{
    let r = bytes_eq(a.address.as_slice(), b.address.as_slice()) && bytes_eq(
        a.key.as_slice(),
        b.key.as_slice(),
    ) && bytes_eq(a.value.as_slice(), b.value.as_slice());
    proof {
        if a.address@ == b.address@ && a.key@ == b.key@ && a.value@ == b.value@ {
            assert(a.address == b.address);
            assert(a.key == b.key);
            assert(a.value == b.value);
        }
    }
    r
}

/// Whether two lists of storage changes are the same.
pub fn changes_eq(a: &[StorageChange], b: &[StorageChange]) -> (r: bool)
    ensures
        r == (a@ == b@),
{
    if a.len() != b.len() {
        return false;
    }
    let mut i: usize = 0;
    while i < a.len()
        invariant
            i <= a@.len(),
            a@.len() == b@.len(),
            forall|k: int| 0 <= k < i ==> a@[k] == b@[k],
        decreases a@.len() - i,
    {
        if !change_eq(&a[i], &b[i]) {
            return false;
        }
        i = i + 1;
    }
    assert(a@ == b@);
    true
}

/// Whether two behaviours are the same.
pub fn behavior_eq(a: &Behavior, b: &Behavior) -> (r: bool)
    ensures
        r == (a@ == b@),
{
    status_eq(&a.status, &b.status) && bytes_eq(&a.output, &b.output) && logs_eq(&a.logs, &b.logs)
        && changes_eq(&a.storage_changes, &b.storage_changes)
}

/// A storage slot that an execution touched: its value before the
/// transaction and after it.
#[derive(Debug, Clone, Copy)]
pub struct StorageSlot {
    pub address: [u8; 20],
    pub key: [u8; 32],
    pub original_value: [u8; 32],
    pub present_value: [u8; 32],
}

/// The slot's value differs from the one it had before the transaction.
pub open spec fn slot_changed(s: StorageSlot) -> bool {
    s.original_value@ != s.present_value@
}

/// The change that a slot records.
pub open spec fn slot_change(s: StorageSlot) -> StorageChange {
    StorageChange { address: s.address, key: s.key, value: s.present_value }
}

/// The changes recorded by the changed slots, in the order of the slots.
pub open spec fn changed_slots(slots: Seq<StorageSlot>) -> Seq<StorageChange>
    decreases slots.len(),
{
    if slots.len() == 0 {
        Seq::empty()
    } else if slot_changed(slots.last()) {
        changed_slots(slots.drop_last()).push(slot_change(slots.last()))
    } else {
        changed_slots(slots.drop_last())
    }
}

/// The bytes by which a storage change is ordered.
fn change_order_bytes(c: &StorageChange) -> (v: Vec<u8>)
    ensures
        v@ == change_order_key(*c),
{
    let mut v: Vec<u8> = Vec::new();
    append_bytes(&mut v, c.address.as_slice());
    append_bytes(&mut v, c.key.as_slice());
    append_bytes(&mut v, c.value.as_slice());
    v
}

/// Whether `a` comes before or equals `b` in the order of storage changes.
pub fn change_le_exec(a: &StorageChange, b: &StorageChange) -> (r: bool)
    ensures
        r == change_le(*a, *b),
{
    let ka = change_order_bytes(a);
    let kb = change_order_bytes(b);
    bytes_le(&ka, &kb)
}

proof fn lemma_insert_keeps_sorted(s: Seq<StorageChange>, p: int, c: StorageChange)
    requires
        changes_sorted(s),
        0 <= p <= s.len(),
        forall|k: int| 0 <= k < p ==> change_le(#[trigger] s[k], c),
        p < s.len() ==> !change_le(s[p], c),
    ensures
        changes_sorted(s.insert(p, c)),
{
    let t = s.insert(p, c);
    assert forall|k: int| p <= k < s.len() implies change_le(c, #[trigger] s[k]) by {
        lemma_lex_total(change_order_key(s[p]), change_order_key(c));
        if k > p {
            assert(change_le(s[p], s[k]));
        } else {
            lemma_lex_reflexive(change_order_key(s[k]));
        }
        lemma_lex_transitive(change_order_key(c), change_order_key(s[p]), change_order_key(s[k]));
    }
    assert forall|i: int, j: int| 0 <= i < j < t.len() implies change_le(
        #[trigger] t[i],
        #[trigger] t[j],
    ) by {
        if j < p {
            assert(t[i] == s[i] && t[j] == s[j]);
        } else if j == p {
            assert(t[i] == s[i]);
        } else if i < p {
            assert(t[i] == s[i] && t[j] == s[j - 1]);
        } else if i == p {
            assert(t[j] == s[j - 1]);
        } else {
            assert(t[i] == s[i - 1] && t[j] == s[j - 1]);
        }
    }
}

/// Inserts a change into a sorted list, after every change that does not
/// come after it.
fn insert_sorted(v: &mut Vec<StorageChange>, c: StorageChange)
    requires
        changes_sorted(old(v)@),
    ensures
        changes_sorted(final(v)@),
        final(v)@.to_multiset() == old(v)@.to_multiset().insert(c),
{
    let mut p: usize = 0;
    while p < v.len() && change_le_exec(&v[p], &c)
        invariant
            p <= v@.len(),
            forall|k: int| 0 <= k < p ==> change_le(#[trigger] v@[k], c),
        decreases v@.len() - p,
    {
        p = p + 1;
    }
    proof {
        lemma_insert_keeps_sorted(v@, p as int, c);
        vstd::seq_lib::to_multiset_insert(v@, p as int, c);
    }
    v.insert(p, c);
}

/// The storage changes that the slots record, sorted by address, key and
/// value. Slots whose value did not change are left out.
pub fn storage_changes(slots: &[StorageSlot]) -> (changes: Vec<StorageChange>)
    ensures
        changes_sorted(changes@),
        changes@.to_multiset() == changed_slots(slots@).to_multiset(),
{
    let mut changes: Vec<StorageChange> = Vec::new();
    let mut i: usize = 0;
    while i < slots.len()
        invariant
            i <= slots@.len(),
            changes_sorted(changes@),
            changes@.to_multiset() == changed_slots(slots@.take(i as int)).to_multiset(),
        decreases slots@.len() - i,
    {
        let slot = slots[i];
        proof {
            assert(slots@.take(i + 1).drop_last() == slots@.take(i as int));
            assert(slots@.take(i + 1).last() == slot);
        }
        if !bytes_eq(slot.original_value.as_slice(), slot.present_value.as_slice()) {
            let change = StorageChange {
                address: slot.address,
                key: slot.key,
                value: slot.present_value,
            };
            insert_sorted(&mut changes, change);
            proof {
                vstd::seq_lib::to_multiset_build(changed_slots(slots@.take(i as int)), change);
            }
        }
        i = i + 1;
    }
    assert(slots@.take(slots@.len() as int) == slots@);
    changes
}

/// Two storage changes with the same ordering key are the same change.
proof fn lemma_order_key_injective(x: StorageChange, y: StorageChange)
    requires
        change_order_key(x) == change_order_key(y),
    ensures
        x == y,
{
    let kx = change_order_key(x);
    let ky = change_order_key(y);
    assert(kx.subrange(0, 20) == x.address@);
    assert(ky.subrange(0, 20) == y.address@);
    assert(kx.subrange(20, 52) == x.key@);
    assert(ky.subrange(20, 52) == y.key@);
    assert(kx.subrange(52, 84) == x.value@);
    assert(ky.subrange(52, 84) == y.value@);
    assert(x.address == y.address);
    assert(x.key == y.key);
    assert(x.value == y.value);
}

/// Sorting determines the order of storage changes: two sorted lists that
/// hold the same changes, each as many times, are the same list. So the
/// changes reported for a transaction do not depend on the order in which
/// the touched slots were listed.
pub proof fn lemma_sorted_changes_unique(a: Seq<StorageChange>, b: Seq<StorageChange>)
    requires
        changes_sorted(a),
        changes_sorted(b),
        a.to_multiset() == b.to_multiset(),
    ensures
        a == b,
    decreases a.len(),
{
    broadcast use vstd::seq_lib::group_to_multiset_ensures;

    if a.len() == 0 {
        a.to_multiset_ensures();
        b.to_multiset_ensures();
        assert(b.to_multiset().len() == 0);
        assert(b.len() == 0);
        assert(a =~= b);
    } else {
        a.to_multiset_ensures();
        b.to_multiset_ensures();
        assert(b.len() == a.len());
        let x = a[0];
        let y = b[0];
        assert(a.to_multiset().count(y) > 0);
        assert(a.contains(y));
        let k = choose|k: int| 0 <= k < a.len() && a[k] == y;
        if k > 0 {
            assert(change_le(a[0], a[k]));
        } else {
            lemma_lex_reflexive(change_order_key(x));
        }
        assert(b.to_multiset().count(x) > 0);
        assert(b.contains(x));
        let m = choose|m: int| 0 <= m < b.len() && b[m] == x;
        if m > 0 {
            assert(change_le(b[0], b[m]));
        } else {
            lemma_lex_reflexive(change_order_key(y));
        }
        lemma_lex_antisymmetric(change_order_key(x), change_order_key(y));
        lemma_order_key_injective(x, y);
        vstd::seq_lib::to_multiset_remove(a, 0);
        vstd::seq_lib::to_multiset_remove(b, 0);
        assert(a.remove(0) == a.drop_first());
        assert(b.remove(0) == b.drop_first());
        assert(changes_sorted(a.drop_first())) by {
            assert forall|i: int, j: int| 0 <= i < j < a.drop_first().len() implies change_le(
                #[trigger] a.drop_first()[i],
                #[trigger] a.drop_first()[j],
            ) by {
                assert(a.drop_first()[i] == a[i + 1] && a.drop_first()[j] == a[j + 1]);
            }
        }
        assert(changes_sorted(b.drop_first())) by {
            assert forall|i: int, j: int| 0 <= i < j < b.drop_first().len() implies change_le(
                #[trigger] b.drop_first()[i],
                #[trigger] b.drop_first()[j],
            ) by {
                assert(b.drop_first()[i] == b[i + 1] && b.drop_first()[j] == b[j + 1]);
            }
        }
        lemma_sorted_changes_unique(a.drop_first(), b.drop_first());
        assert(a =~= b) by {
            assert forall|i: int| 0 <= i < a.len() implies a[i] == b[i] by {
                if i > 0 {
                    assert(a[i] == a.drop_first()[i - 1]);
                    assert(b[i] == b.drop_first()[i - 1]);
                }
            }
        }
    }
}

proof fn lemma_changed_concat(p: Seq<StorageSlot>, q: Seq<StorageSlot>)
    ensures
        changed_slots(p + q) == changed_slots(p) + changed_slots(q),
    decreases q.len(),
{
    if q.len() == 0 {
        assert(p + q == p);
        assert(changed_slots(p) + changed_slots(q) == changed_slots(p));
    } else {
        lemma_changed_concat(p, q.drop_last());
        assert((p + q).drop_last() == p + q.drop_last());
        assert((p + q).last() == q.last());
        if slot_changed(q.last()) {
            assert(changed_slots(p) + changed_slots(q) == (changed_slots(p) + changed_slots(
                q.drop_last(),
            )).push(slot_change(q.last())));
        }
    }
}

/// The changes that slots record do not depend on the order in which the
/// slots are listed: two lists holding the same slots, each as many times,
/// record the same changes, each as many times.
pub proof fn lemma_changed_slots_reorder(s1: Seq<StorageSlot>, s2: Seq<StorageSlot>)
    requires
        s1.to_multiset() == s2.to_multiset(),
    ensures
        changed_slots(s1).to_multiset() == changed_slots(s2).to_multiset(),
    decreases s1.len(),
{
    broadcast use vstd::seq_lib::lemma_multiset_commutative;

    s1.to_multiset_ensures();
    s2.to_multiset_ensures();
    if s1.len() == 0 {
        assert(s2.len() == 0);
        assert(s1 =~= s2);
    } else {
        let x = s1.last();
        assert(s1.to_multiset().count(x) > 0);
        assert(s2.contains(x));
        let k = choose|k: int| 0 <= k < s2.len() && s2[k] == x;
        let front = s2.take(k);
        let back = s2.skip(k + 1);
        let r = front + back;
        assert(r == s2.remove(k));
        vstd::seq_lib::to_multiset_remove(s2, k);
        vstd::seq_lib::to_multiset_remove(s1, s1.len() - 1);
        assert(s1.remove(s1.len() - 1) == s1.drop_last());
        lemma_changed_slots_reorder(s1.drop_last(), r);
        assert(s2 == front + (seq![x] + back));
        lemma_changed_concat(front, seq![x] + back);
        lemma_changed_concat(seq![x], back);
        lemma_changed_concat(front, back);
        assert(seq![x].drop_last() == Seq::<StorageSlot>::empty());
        let cx = changed_slots(seq![x]);
        assert(seq![x].last() == x);
        assert(changed_slots(seq![x].drop_last()) == Seq::<StorageChange>::empty());
        assert(Seq::<StorageChange>::empty().push(slot_change(x)) =~= seq![slot_change(x)]);
        let lhs = changed_slots(s1);
        if slot_changed(x) {
            assert(cx == seq![slot_change(x)]);
            assert(lhs == changed_slots(s1.drop_last()).push(slot_change(x)));
            assert(changed_slots(s1.drop_last()).push(slot_change(x)) == changed_slots(s1.drop_last())
                + seq![slot_change(x)]);
        } else {
            assert(cx == Seq::<StorageChange>::empty());
            assert(lhs == changed_slots(s1.drop_last()));
        }
        assert(changed_slots(s2).to_multiset() =~= changed_slots(front).to_multiset().add(
            cx.to_multiset(),
        ).add(changed_slots(back).to_multiset()));
        assert(changed_slots(r).to_multiset() =~= changed_slots(front).to_multiset().add(
            changed_slots(back).to_multiset(),
        ));
        assert(lhs.to_multiset() =~= changed_slots(s1.drop_last()).to_multiset().add(
            cx.to_multiset(),
        ));
    }
}

/// How a transaction ended, as the EVM reported it: the data a success
/// returned, the data a revert returned, or why the EVM halted.
#[derive(Debug, Clone)]
pub enum TransactionResult {
    Success { output: Vec<u8> },
    Revert { output: Vec<u8> },
    Halt { reason: String },
}

impl ExecutionOutcome {
    /// The outcome of a transaction: its status, its output (none when the
    /// EVM halted), its logs, the storage it changed and the gas it used.
    pub fn from_result(
        result: TransactionResult,
        logs: Vec<EvmLog>,
        slots: &[StorageSlot],
        gas_used: u64,
    ) -> (o: ExecutionOutcome)
        ensures
            match result {
                TransactionResult::Success { output } => {
                    &&& o.status@ == StatusModel::Success
                    &&& o.output@ == output@
                },
                TransactionResult::Revert { output } => {
                    &&& o.status@ == StatusModel::Revert
                    &&& o.output@ == output@
                },
                TransactionResult::Halt { reason } => {
                    &&& o.status@ == StatusModel::Halt(reason@)
                    &&& o.output@.len() == 0
                },
            },
            o.logs@ == logs@,
            changes_sorted(o.storage_changes@),
            o.storage_changes@.to_multiset() == changed_slots(slots@).to_multiset(),
            o.gas_used == gas_used,
    {
        let (status, output) = match result {
            TransactionResult::Success { output } => (ExecutionStatus::Success, output),
            TransactionResult::Revert { output } => (ExecutionStatus::Revert, output),
            TransactionResult::Halt { reason } => (ExecutionStatus::Halt(reason), Vec::new()),
        };
        ExecutionOutcome { status, output, logs, storage_changes: storage_changes(slots), gas_used }
    }
}

/// No two storage changes are for the same address and key.
pub open spec fn change_keys_distinct(s: Seq<StorageChange>) -> bool {
    forall|i: int, j: int|
        0 <= i < j < s.len() ==> !((#[trigger] s[i]).address == (#[trigger] s[j]).address && s[i].key
            == s[j].key)
}

/// Every change that the changed slots record has the address and key of
/// one of the slots.
proof fn lemma_changed_keys_from(slots: Seq<StorageSlot>, k: int)
    requires
        0 <= k < changed_slots(slots).len(),
    ensures
        exists|j: int|
            0 <= j < slots.len() && (#[trigger] slots[j]).address == changed_slots(slots)[k].address
                && slots[j].key == changed_slots(slots)[k].key,
    decreases slots.len(),
{
    let d = slots.drop_last();
    if slot_changed(slots.last()) && k == changed_slots(d).len() {
        assert(slots[slots.len() - 1] == slots.last());
    } else {
        lemma_changed_keys_from(d, k);
        let j = choose|j: int|
            0 <= j < d.len() && (#[trigger] d[j]).address == changed_slots(d)[k].address && d[j].key
                == changed_slots(d)[k].key;
        assert(slots[j] == d[j]);
    }
}

/// Where no two slots share an address and key, neither do the changes
/// they record.
pub proof fn lemma_changed_keys_distinct(slots: Seq<StorageSlot>)
    requires
        forall|i: int, j: int|
            0 <= i < j < slots.len() ==> !((#[trigger] slots[i]).address == (#[trigger] slots[j]).address
                && slots[i].key == slots[j].key),
    ensures
        change_keys_distinct(changed_slots(slots)),
    decreases slots.len(),
{
    if slots.len() > 0 {
        let d = slots.drop_last();
        assert forall|i: int, j: int| 0 <= i < j < d.len() implies !((#[trigger] d[i]).address
            == (#[trigger] d[j]).address && d[i].key == d[j].key) by {
            assert(d[i] == slots[i] && d[j] == slots[j]);
        }
        lemma_changed_keys_distinct(d);
        if slot_changed(slots.last()) {
            let c = changed_slots(slots);
            let cd = changed_slots(d);
            assert forall|i: int, j: int| 0 <= i < j < c.len() implies !((#[trigger] c[i]).address
                == (#[trigger] c[j]).address && c[i].key == c[j].key) by {
                if j == cd.len() {
                    lemma_changed_keys_from(d, i);
                    let p = choose|p: int|
                        0 <= p < d.len() && (#[trigger] d[p]).address == cd[i].address && d[p].key
                            == cd[i].key;
                    assert(d[p] == slots[p]);
                    assert(slots[slots.len() - 1] == slots.last());
                } else {
                    assert(c[i] == cd[i] && c[j] == cd[j]);
                }
            }
        }
    }
}

proof fn lemma_second_index<A>(s: Seq<A>, p: int)
    requires
        0 <= p < s.len(),
        s.to_multiset().count(s[p]) >= 2,
    ensures
        exists|q: int| 0 <= q < s.len() && q != p && #[trigger] s[q] == s[p],
{
    broadcast use vstd::seq_lib::group_to_multiset_ensures;

    let x = s[p];
    let r = s.remove(p);
    assert(r.to_multiset() =~= s.to_multiset().remove(x));
    assert(r.to_multiset().count(x) >= 1);
    assert(r.contains(x));
    let q1 = choose|q1: int| 0 <= q1 < r.len() && r[q1] == x;
    if q1 < p {
        assert(s[q1] == r[q1]);
    } else {
        assert(s[q1 + 1] == r[q1]);
    }
}

proof fn lemma_two_indices_count<A>(s: Seq<A>, i: int, j: int)
    requires
        0 <= i < j < s.len(),
        s[i] == s[j],
    ensures
        s.to_multiset().count(s[i]) >= 2,
{
    broadcast use vstd::seq_lib::group_to_multiset_ensures;

    let x = s[j];
    let r = s.remove(j);
    assert(r.to_multiset() =~= s.to_multiset().remove(x));
    assert(r[i] == x);
    assert(r.contains(x));
    assert(r.to_multiset().count(x) >= 1);
}

/// Changes with the same elements as changes whose addresses and keys are
/// distinct have distinct addresses and keys too.
pub proof fn lemma_keys_distinct_by_multiset(a: Seq<StorageChange>, b: Seq<StorageChange>)
    requires
        change_keys_distinct(b),
        a.to_multiset() == b.to_multiset(),
    ensures
        change_keys_distinct(a),
{
    broadcast use vstd::seq_lib::group_to_multiset_ensures;

    assert forall|i: int, j: int| 0 <= i < j < a.len() implies !((#[trigger] a[i]).address
        == (#[trigger] a[j]).address && a[i].key == a[j].key) by {
        if a[i].address == a[j].address && a[i].key == a[j].key {
            let x = a[i];
            let y = a[j];
            assert(a.contains(x) && a.contains(y));
            assert(b.to_multiset().count(x) > 0 && b.to_multiset().count(y) > 0);
            assert(b.contains(x) && b.contains(y));
            let p = choose|p: int| 0 <= p < b.len() && b[p] == x;
            if x == y {
                lemma_two_indices_count(a, i, j);
                assert(b.to_multiset().count(b[p]) >= 2);
                lemma_second_index(b, p);
                let q = choose|q: int| 0 <= q < b.len() && q != p && #[trigger] b[q] == b[p];
                if p < q {
                    assert(!(b[p].address == b[q].address && b[p].key == b[q].key));
                } else {
                    assert(!(b[q].address == b[p].address && b[q].key == b[p].key));
                }
            } else {
                let q = choose|q: int| 0 <= q < b.len() && b[q] == y;
                assert(p != q);
                if p < q {
                    assert(!(b[p].address == b[q].address && b[p].key == b[q].key));
                } else {
                    assert(!(b[q].address == b[p].address && b[q].key == b[p].key));
                }
            }
        }
    }
}

/// The behaviour of an outcome is all it did but the gas: its status,
/// output, logs and storage changes, each as the outcome has it.
pub proof fn lemma_behavior_keeps_effects(o: ExecutionOutcome)
    ensures
        o.behavior_model().status == o.status@,
        o.behavior_model().output == o.output@,
        o.behavior_model().logs == o.logs@.map_values(|l: EvmLog| l@),
        o.behavior_model().storage_changes == o.storage_changes@,
{
}

} // verus!
