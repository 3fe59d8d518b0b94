//! An in-memory EVM on which contracts are deployed and called, one
//! transaction after another.

use crate::evm::{
    change_keys_distinct, changed_slots, changes_sorted, DeployOutcome, EvmLog, ExecutionOutcome, StatusModel,
    StorageSlot, TransactionResult,
};
use revm::context::{BlockEnv, TxEnv};
use revm::context_interface::result::{ExecResultAndState, ExecutionResult, HaltReason};
use revm::database::CacheDB;
use revm::database_interface::EmptyDBTyped;
use revm::primitives::hardfork::SpecId;
use revm::primitives::{Address, Bytes, TxKind, U256};
use revm::bytecode::Bytecode;
use revm::state::{Account, AccountInfo, EvmState};
use revm::primitives::map::FbBuildHasher;
use revm::{DatabaseCommit, ExecuteEvm, MainBuilder, MainContext};
use vstd::multiset::Multiset;
use vstd::prelude::*;

verus! {

/// The in-memory database of accounts.
#[verifier::external_type_specification]
#[verifier::external_body]
#[verifier::reject_recursive_types(ExtDB)]
pub struct ExCacheDB<ExtDB>(CacheDB<ExtDB>);

/// The empty database under the cache.
#[verifier::external_type_specification]
#[verifier::external_body]
#[verifier::reject_recursive_types(E)]
pub struct ExEmptyDBTyped<E>(EmptyDBTyped<E>);

/// The result of a transaction together with the state it touched.
#[verifier::external_type_specification]
#[verifier::external_body]
#[verifier::reject_recursive_types(R)]
#[verifier::reject_recursive_types(S)]
pub struct ExExecResultAndState<R, S>(ExecResultAndState<R, S>);

/// What a transaction returned or how it stopped.
#[verifier::external_type_specification]
#[verifier::external_body]
#[verifier::reject_recursive_types(H)]
pub struct ExExecutionResult<H>(ExecutionResult<H>);

/// Why the EVM halted a transaction.
#[verifier::external_type_specification]
#[verifier::external_body]
pub struct ExHaltReason(HaltReason);

/// An account as a transaction left it.
#[verifier::external_type_specification]
#[verifier::external_body]
pub struct ExAccount(Account);

/// A 20-byte account address.
#[verifier::external_type_specification]
#[verifier::external_body]
pub struct ExAddress(Address);

/// The hasher of maps keyed by addresses.
#[verifier::external_type_specification]
#[verifier::external_body]
pub struct ExFbBuildHasher<const N: usize>(FbBuildHasher<N>);

/// The reply of the EVM to a transaction: how it ended and the state it
/// touched.
pub type Reply = ExecResultAndState<ExecutionResult<HaltReason>, EvmState>;

/// The database type of the harness: a cache over an empty database.
pub type MemoryDb = CacheDB<EmptyDBTyped<core::convert::Infallible>>;

/// The hard fork whose rules the EVM follows.
#[derive(Clone, Copy, Debug, PartialEq, Eq, Structural)]
pub enum HardFork {
    Osaka,
}

/// An account as the EVM reads it: its balance (32 bytes, big-endian), its
/// nonce, its code, and its storage slots (keys and values of 32 bytes,
/// big-endian).
pub struct AccountModel {
    pub balance: Seq<u8>,
    pub nonce: u64,
    pub code: Seq<u8>,
    pub storage: Map<Seq<u8>, Seq<u8>>,
}

/// Code that the EVM refuses to hold: bytes that begin with the EIP-7702
/// marker 0xEF 0x01 but are not a delegation designator (23 bytes, version
/// 0).
pub open spec fn malformed_delegation(code: Seq<u8>) -> bool {
    &&& code.len() >= 2
    &&& code[0] == 0xEFu8
    &&& code[1] == 0x01u8
    &&& !(code.len() == 23 && code[2] == 0x00u8)
}

/// The accounts that a database holds, as the EVM reads them, keyed by
/// address: every account that exists, with its balance, nonce, code and
/// storage. The code hash that a database keeps with an account is that of
/// its code, and the block hashes it caches are those that the empty
/// database below computes, so nothing else that it holds changes what a
/// transaction does.
pub uninterp spec fn db_accounts(db: MemoryDb) -> Map<Seq<u8>, AccountModel>;

/// What the EVM replies to a transaction, in the terms that do not depend
/// on how its maps are laid out: how it ended, its logs in order, the gas it
/// used, the storage slots it touched, and the accounts of the database once
/// its state is committed.
pub struct CallReply {
    pub ending: TransactionResult,
    pub logs: Seq<EvmLog>,
    pub gas_used: u64,
    pub slots: Multiset<StorageSlot>,
    pub accounts: Map<Seq<u8>, AccountModel>,
}

/// What the EVM replies to a call transaction: from `caller`, with the
/// given nonce, gas limit and gas price and no value, to `to` with
/// `calldata`, run on a database holding `accounts`, in the default block
/// with the given gas limit, under the rules of `fork`; or why it refuses
/// to run it.
pub uninterp spec fn evm_call(
    accounts: Map<Seq<u8>, AccountModel>,
    block_gas_limit: u64,
    fork: HardFork,
    caller: Seq<u8>,
    to: Seq<u8>,
    calldata: Seq<u8>,
    nonce: u64,
    gas_limit: u64,
    gas_price: u128,
) -> Result<CallReply, EvmError>;

/// Every account of `before` that holds code exists in `after` with the
/// same code.
pub open spec fn codes_kept(before: Map<Seq<u8>, AccountModel>, after: Map<Seq<u8>, AccountModel>) -> bool {
    forall|a: Seq<u8>|
        #[trigger] before.contains_key(a) && before[a].code.len() > 0 ==> after.contains_key(a)
            && after[a].code == before[a].code
}

/// A transaction that did not succeed changes the code of no account: the
/// EVM undoes what its frames did, and a call transaction makes no code but
/// by creating contracts in them.
pub open spec fn failure_keeps_code(accounts: Map<Seq<u8>, AccountModel>, c: CallReply) -> bool {
    !(c.ending is Success) ==> codes_kept(accounts, c.accounts)
}

/// No two storage slots of `slots` have the same address and key.
pub open spec fn slot_keys_distinct(slots: Seq<StorageSlot>) -> bool {
    forall|i: int, j: int|
        0 <= i < j < slots.len() ==> !((#[trigger] slots[i]).address == (#[trigger] slots[j]).address
            && slots[i].key == slots[j].key)
}

/// How a reply ended, as plain values.
pub uninterp spec fn reply_ending(reply: Reply) -> TransactionResult;

/// The logs that a reply holds, in order.
pub uninterp spec fn reply_logs(reply: Reply) -> Seq<EvmLog>;

/// The gas that the transaction of a reply used.
pub uninterp spec fn reply_gas_used(reply: Reply) -> u64;

/// The storage slots that the state of a reply holds, each with its value
/// before and after the transaction; the order in which its maps are walked
/// is left out.
pub uninterp spec fn reply_slots(reply: Reply) -> Multiset<StorageSlot>;

/// The accounts of a database after the state of a reply is committed to it.
pub uninterp spec fn committed_accounts(
    accounts: Map<Seq<u8>, AccountModel>,
    reply: Reply,
) -> Map<Seq<u8>, AccountModel>;

/// No accounts at all.
pub open spec fn no_accounts() -> Map<Seq<u8>, AccountModel> {
    Map::empty()
}

/// The storage that an account keeps when new account data is put at its
/// address: its slots if it exists, none otherwise.
pub open spec fn kept_storage(accounts: Map<Seq<u8>, AccountModel>, address: Seq<u8>) -> Map<
    Seq<u8>,
    Seq<u8>,
> {
    if accounts.contains_key(address) {
        accounts[address].storage
    } else {
        Map::empty()
    }
}

/// Runs a call transaction on a copy of the database, in the default block
/// with the given gas limit, under the rules of `fork`, without committing
/// its changes.
///
/// Trusted: builds the transaction with `TxEnv::builder` (a build error is
/// `EvmError::Transaction`), builds a mainnet EVM with `Context::mainnet`,
/// `with_db`, `with_block`, `modify_cfg_chained` (the fork and its gas
/// parameters) and `build_mainnet`, and calls `ExecuteEvm::transact` (an
/// error is `EvmError::Execution`). The builder derives a legacy transaction
/// from these fields and never fails. What the reply holds (its ending,
/// logs, gas, slots, and the accounts once it is committed to `db`) is
/// `evm_call` of the database's accounts and the arguments; the reply's own
/// maps, whose hashers are seeded at random, are not claimed. A transaction
/// that reverted or halted leaves every account's code as it was: the
/// journal reverts the frames, and with no authorisation list only contract
/// creation in a frame writes code.
#[verifier::external_body]
fn transact(
    db: &MemoryDb,
    block_gas_limit: u64,
    fork: HardFork,
    caller: [u8; 20],
    to: [u8; 20],
    calldata: &[u8],
    nonce: u64,
    gas_limit: u64,
    gas_price: u128,
) -> (r: Result<Reply, EvmError>)
    ensures
        match evm_call(db_accounts(*db), block_gas_limit, fork, caller@, to@, calldata@, nonce, gas_limit, gas_price) {
            Err(e) => r == Err::<Reply, EvmError>(e) && e is Execution,
            Ok(c) => r matches Ok(reply) && {
                &&& reply_ending(reply) == c.ending
                &&& reply_logs(reply) == c.logs
                &&& reply_gas_used(reply) == c.gas_used
                &&& reply_slots(reply) == c.slots
                &&& committed_accounts(db_accounts(*db), reply) == c.accounts
                &&& failure_keeps_code(db_accounts(*db), c)
            },
        },
{
    let tx = TxEnv::builder().caller(Address::from(caller)).gas_limit(gas_limit).gas_price(gas_price)
        .kind(TxKind::Call(Address::from(to))).data(Bytes::copy_from_slice(calldata)).nonce(nonce)
        .build().map_err(|err| EvmError::Transaction(err.to_string()))?;
    let spec = match fork { HardFork::Osaka => SpecId::OSAKA };
    let mut evm = revm::Context::mainnet().with_db(db.clone())
        .with_block(BlockEnv { gas_limit: block_gas_limit, ..BlockEnv::default() })
        .modify_cfg_chained(|cfg| cfg.set_spec_and_mainnet_gas_params(spec)).build_mainnet();
    evm.transact(tx).map_err(|err| EvmError::Execution(err.to_string()))
}

/// A database with no accounts.
///
/// Trusted: calls `CacheDB::default`, whose cache starts with no accounts.
#[verifier::external_body]
fn empty_db() -> (r: MemoryDb)
    ensures
        db_accounts(r) == no_accounts(),
{
    MemoryDb::default()
}

/// Puts an account with the given balance, nonce and code at an address,
/// keeping the storage of any account that was there.
///
/// Trusted: builds the code with `Bytecode::new_raw` (which panics on
/// exactly the malformed delegations), the account with
/// `AccountInfo::from_bytecode` with the balance and nonce set, and calls
/// `CacheDB::insert_account_info`, which replaces the account's data but
/// keeps its storage.
#[verifier::external_body]
fn insert_account(db: &mut MemoryDb, address: [u8; 20], balance: [u8; 32], nonce: u64, code: &[u8])
    requires
        !malformed_delegation(code@),
    ensures
        db_accounts(*final(db)) == db_accounts(*old(db)).insert(
            address@,
            AccountModel {
                balance: balance@,
                nonce,
                code: code@,
                storage: kept_storage(db_accounts(*old(db)), address@),
            },
        ),
{
    let bytecode = Bytecode::new_raw(Bytes::copy_from_slice(code));
    let info = AccountInfo { balance: U256::from_be_bytes(balance), nonce, ..AccountInfo::from_bytecode(bytecode) };
    db.insert_account_info(Address::from(address), info);
}

/// The gas limit of the default block.
///
/// Trusted: reads the `gas_limit` of `BlockEnv::default`, which is
/// `u64::MAX`.
#[verifier::external_body]
fn default_block_gas_limit() -> (g: u64)
    ensures
        g == u64::MAX,
{
    BlockEnv::default().gas_limit
}

/// How the transaction ended, as plain values: the returned data of a
/// success, the data of a revert, or for a halt the halt reason as `Debug`
/// prints it.
///
/// Trusted: matches on the variants of `ExecutionResult` and copies their
/// fields; the result is `reply_ending` of the reply.
#[verifier::external_body]
fn transaction_result(r: &Reply) -> (t: TransactionResult)
    ensures
        t == reply_ending(*r),
{
    match &r.result {
        ExecutionResult::Success { output, .. } => TransactionResult::Success { output: output.data().to_vec() },
        ExecutionResult::Revert { output, .. } => TransactionResult::Revert { output: output.to_vec() },
        ExecutionResult::Halt { reason, .. } => TransactionResult::Halt { reason: format!("{reason:?}") },
    }
}

/// The logs that the transaction emitted, in order, each as its address,
/// topics and data.
///
/// Trusted: calls `ExecutionResult::logs` and copies each log's fields; the
/// logs are `reply_logs` of the reply.
#[verifier::external_body]
fn transaction_logs(r: &Reply) -> (v: Vec<EvmLog>)
    ensures
        v@ == reply_logs(*r),
{
    r.result.logs().iter().map(|log| EvmLog {
        address: log.address.into_array(),
        topics: log.topics().iter().map(|topic| topic.0).collect(),
        data: log.data.data.to_vec(),
    }).collect()
}

/// The gas that the transaction used.
///
/// Trusted: calls `ExecutionResult::tx_gas_used`; the result is
/// `reply_gas_used` of the reply.
#[verifier::external_body]
fn transaction_gas_used(r: &Reply) -> (g: u64)
    ensures
        g == reply_gas_used(*r),
{
    r.result.tx_gas_used()
}

/// Every storage slot that the transaction touched, with its value before
/// and after the transaction, in the order in which the state map is walked.
///
/// Trusted: walks the accounts of the state and the slots of each; the slots
/// are those of `reply_slots`, in an order that is not claimed. The state
/// maps each address to one account and each account's storage maps each
/// key to one slot, so no address and key come twice.
#[verifier::external_body]
fn touched_slots(r: &Reply) -> (v: Vec<StorageSlot>)
    ensures
        v@.to_multiset() == reply_slots(*r),
        slot_keys_distinct(v@),
{
    let mut slots = Vec::new();
    for (address, account) in &r.state {
        for (key, slot) in &account.storage {
            slots.push(StorageSlot { address: address.into_array(), key: key.to_be_bytes(),
                original_value: slot.original_value.to_be_bytes(), present_value: slot.present_value.to_be_bytes() });
        }
    }
    slots
}

/// Writes the state that a transaction left into the database.
///
/// Trusted: calls `DatabaseCommit::commit` of `CacheDB`; the accounts
/// afterwards are `committed_accounts` of those before and the reply.
#[verifier::external_body]
fn commit(db: &mut MemoryDb, r: Reply)
    ensures
        db_accounts(*final(db)) == committed_accounts(db_accounts(*old(db)), r),
{
    db.commit(r.state);
}

/// The account that sends transactions unless another is chosen.
pub fn default_caller() -> (a: [u8; 20])
    ensures
        a@ == Seq::new(20, |i: int| 0xCAu8),
{
    let a: [u8; 20] = [0xCAu8; 20];
    assert(a@ =~= Seq::new(20, |i: int| 0xCAu8));
    a
}

/// The address at which contracts are deployed unless another is chosen.
pub fn default_contract() -> (a: [u8; 20])
    ensures
        a@ == Seq::new(20, |i: int| 0xCCu8),
{
    let a: [u8; 20] = [0xCCu8; 20];
    assert(a@ =~= Seq::new(20, |i: int| 0xCCu8));
    a
}

/// The gas limit of transactions unless another is chosen.
pub const DEFAULT_GAS_LIMIT: u64 = 10_000_000;

/// The largest balance: every byte 0xff.
fn max_balance() -> (b: [u8; 32])
    ensures
        b@ == Seq::new(32, |i: int| 0xFFu8),
{
    let b: [u8; 32] = [0xFFu8; 32];
    assert(b@ =~= Seq::new(32, |i: int| 0xFFu8));
    b
}

/// Why the EVM could not run a transaction.
#[derive(Debug)]
pub enum EvmError {
    /// The transaction could not be built.
    Transaction(String),
    /// The EVM refused or failed to run the transaction.
    Execution(String),
}

/// Everything that decides what the harness's next transaction does: the
/// accounts of its database, the block gas limit, the hard fork, and the
/// caller with its nonce and the gas limit of its transactions.
pub struct HarnessModel {
    pub accounts: Map<Seq<u8>, AccountModel>,
    pub block_gas_limit: u64,
    pub fork: HardFork,
    pub caller: Seq<u8>,
    pub nonce: u64,
    pub gas_limit: u64,
}

/// A funded account: the largest balance, nonce zero, no code.
pub open spec fn funded_account(storage: Map<Seq<u8>, Seq<u8>>) -> AccountModel {
    AccountModel { balance: Seq::new(32, |i: int| 0xFFu8), nonce: 0, code: Seq::empty(), storage }
}

/// An account that holds code: no balance, nonce one.
pub open spec fn code_account(code: Seq<u8>, storage: Map<Seq<u8>, Seq<u8>>) -> AccountModel {
    AccountModel { balance: Seq::new(32, |i: int| 0u8), nonce: 1, code, storage }
}

/// The harness as `EvmHarness::new` makes it: only the default caller
/// exists, funded; the default block and gas limit; the Osaka rules.
pub open spec fn fresh_model() -> HarnessModel {
    HarnessModel {
        accounts: no_accounts().insert(
            Seq::new(20, |i: int| 0xCAu8),
            funded_account(Map::empty()),
        ),
        block_gas_limit: u64::MAX,
        fork: HardFork::Osaka,
        caller: Seq::new(20, |i: int| 0xCAu8),
        nonce: 0,
        gas_limit: DEFAULT_GAS_LIMIT,
    }
}

impl HarnessModel {
    /// The EVM's reply to a call of `to` with `calldata`, sent next.
    pub open spec fn reply_to(self, to: Seq<u8>, calldata: Seq<u8>) -> Result<CallReply, EvmError> {
        evm_call(
            self.accounts,
            self.block_gas_limit,
            self.fork,
            self.caller,
            to,
            calldata,
            self.nonce,
            self.gas_limit,
            0,
        )
    }

    /// The harness after a reply is committed: the state it touched is
    /// written and the nonce advances.
    pub open spec fn after(self, reply: CallReply) -> HarnessModel {
        HarnessModel {
            accounts: reply.accounts,
            nonce: (self.nonce + 1) as u64,
            ..self
        }
    }

    /// The harness with `code` put at `address`.
    pub open spec fn with_code(self, address: Seq<u8>, code: Seq<u8>) -> HarnessModel {
        HarnessModel {
            accounts: self.accounts.insert(address, code_account(code, kept_storage(self.accounts, address))),
            ..self
        }
    }
}

/// An outcome is the one the harness reports for a reply: the status and
/// output of how it ended (none for a halt), its logs in order, the storage
/// it changed sorted by address and key, each address and key once, and the
/// gas it used.
pub open spec fn answers(o: ExecutionOutcome, reply: CallReply) -> bool {
    &&& match reply.ending {
        TransactionResult::Success { output } => o.status@ == StatusModel::Success && o.output@ == output@,
        TransactionResult::Revert { output } => o.status@ == StatusModel::Revert && o.output@ == output@,
        TransactionResult::Halt { reason } => o.status@ == StatusModel::Halt(reason@) && o.output@.len() == 0,
    }
    &&& o.logs@ == reply.logs
    &&& changes_sorted(o.storage_changes@)
    &&& change_keys_distinct(o.storage_changes@)
    &&& exists|s: Seq<StorageSlot>| #[trigger] s.to_multiset() == reply.slots
    &&& forall|s: Seq<StorageSlot>|
        #[trigger] s.to_multiset() == reply.slots ==> o.storage_changes@.to_multiset()
            == changed_slots(s).to_multiset()
    &&& o.gas_used == reply.gas_used
}

/// Where the init code did not succeed, the address keeps the init code
/// (when there is any).
pub open spec fn initcode_stays(m: HarnessModel, address: Seq<u8>, initcode: Seq<u8>, reply: CallReply) -> bool {
    !(reply.ending is Success) && initcode.len() > 0 ==> m.accounts.contains_key(address)
        && m.accounts[address].code == initcode
}

/// Two outcomes are the same: status, output, logs, storage changes and
/// gas.
pub open spec fn outcome_same(a: ExecutionOutcome, b: ExecutionOutcome) -> bool {
    &&& a.status@ == b.status@
    &&& a.output@ == b.output@
    &&& a.logs@ == b.logs@
    &&& a.storage_changes@ == b.storage_changes@
    &&& a.gas_used == b.gas_used
}

/// The outcome that answers a reply is unique.
pub proof fn lemma_answer_unique(a: ExecutionOutcome, b: ExecutionOutcome, reply: CallReply)
    requires
        answers(a, reply),
        answers(b, reply),
    ensures
        outcome_same(a, b),
{
    let s = choose|s: Seq<StorageSlot>| #[trigger] s.to_multiset() == reply.slots;
    assert(s.to_multiset() == reply.slots);
    assert(a.storage_changes@.to_multiset() == changed_slots(s).to_multiset());
    assert(b.storage_changes@.to_multiset() == changed_slots(s).to_multiset());
    crate::evm::lemma_sorted_changes_unique(a.storage_changes@, b.storage_changes@);
    match reply.ending {
        TransactionResult::Success { output } => {
            assert(a.status@ == b.status@ && a.output@ == b.output@);
        },
        TransactionResult::Revert { output } => {
            assert(a.status@ == b.status@ && a.output@ == b.output@);
        },
        TransactionResult::Halt { reason } => {
            assert(a.status@ == b.status@);
            assert(a.output@ =~= b.output@);
        },
    }
}

/// Whether the code that the init call of a deployment returns can be
/// installed: it can unless the call succeeded with a malformed delegation.
pub open spec fn runtime_installable(m: HarnessModel, address: Seq<u8>, initcode: Seq<u8>) -> bool {
    match m.with_code(address, initcode).reply_to(address, Seq::empty()) {
        Ok(reply) => match reply.ending {
            TransactionResult::Success { output } => !malformed_delegation(output@),
            _ => true,
        },
        Err(_) => true,
    }
}

/// The harness after a deployment whose init call got `reply`: the reply is
/// committed and, where the init code succeeded, the code it returned is
/// installed.
pub open spec fn deployed_model(m: HarnessModel, address: Seq<u8>, initcode: Seq<u8>, reply: CallReply) -> HarnessModel {
    let m1 = m.with_code(address, initcode).after(reply);
    match reply.ending {
        TransactionResult::Success { output } => m1.with_code(address, output@),
        _ => m1,
    }
}

/// A copy of a cache and the database under it.
///
/// Trusted: the `Clone` that `CacheDB` derives. Nothing is claimed of the
/// copy, as the database under the cache is any type.
pub assume_specification<ExtDB: Clone>[<CacheDB<ExtDB> as Clone>::clone](db: &CacheDB<ExtDB>) -> CacheDB<
    ExtDB,
>;

/// An in-memory EVM: a funded caller sends transactions one after another,
/// and each transaction's changes are committed before the next one runs.
#[derive(Clone, Debug)]
pub struct EvmHarness {
    db: MemoryDb,
    block_gas_limit: u64,
    caller: [u8; 20],
    nonce: u64,
    gas_limit: u64,
    spec: HardFork,
}

impl Default for EvmHarness {
    /// The same harness as `EvmHarness::new`.
    fn default() -> (h: EvmHarness)
        ensures
            h.model() == fresh_model(),
    {
        EvmHarness::new()
    }
}

impl EvmHarness {
    /// What decides the harness's next transaction.
    pub closed spec fn model(&self) -> HarnessModel {
        HarnessModel {
            accounts: db_accounts(self.db),
            block_gas_limit: self.block_gas_limit,
            fork: self.spec,
            caller: self.caller@,
            nonce: self.nonce,
            gas_limit: self.gas_limit,
        }
    }

    /// A harness whose only account is the default caller, funded with the
    /// largest balance, with nonce zero, a gas limit of ten million, the
    /// default block and the Osaka rules.
    pub fn new() -> (h: EvmHarness)
        ensures
            h.model() == fresh_model(),
    {
        let mut db = empty_db();
        let caller = default_caller();
        let empty: [u8; 0] = [];
        insert_account(&mut db, caller, max_balance(), 0, empty.as_slice());
        let h = EvmHarness {
            db,
            block_gas_limit: default_block_gas_limit(),
            caller,
            nonce: 0,
            gas_limit: DEFAULT_GAS_LIMIT,
            spec: HardFork::Osaka,
        };
        assert(empty@ =~= Seq::<u8>::empty());
        assert(h.model().accounts =~= fresh_model().accounts);
        h
    }

    /// The same harness with transactions sent by `caller`, which is funded
    /// with the largest balance (keeping its storage); the nonce starts again
    /// at zero.
    pub fn with_caller(self, caller: [u8; 20]) -> (h: EvmHarness)
        ensures
            h.model() == (HarnessModel {
                accounts: self.model().accounts.insert(
                    caller@,
                    funded_account(kept_storage(self.model().accounts, caller@)),
                ),
                caller: caller@,
                nonce: 0,
                ..self.model()
            }),
    {
        let mut h = self;
        h.caller = caller;
        let empty: [u8; 0] = [];
        insert_account(&mut h.db, caller, max_balance(), 0, empty.as_slice());
        h.nonce = 0;
        assert(empty@ =~= Seq::<u8>::empty());
        h
    }

    /// The same harness with another gas limit, for transactions and for the
    /// block.
    pub fn with_gas_limit(self, gas_limit: u64) -> (h: EvmHarness)
        ensures
            h.model() == (HarnessModel { gas_limit, block_gas_limit: gas_limit, ..self.model() }),
    {
        let mut h = self;
        h.gas_limit = gas_limit;
        h.block_gas_limit = gas_limit;
        h
    }

    /// Puts an account holding `bytecode` at `address`, with no balance and
    /// nonce one, keeping the storage of any account that was there.
    pub fn install_code(&mut self, address: [u8; 20], bytecode: &[u8])
        requires
            !malformed_delegation(bytecode@),
        ensures
            final(self).model() == old(self).model().with_code(address@, bytecode@),
    {
        let zero: [u8; 32] = [0u8; 32];
        assert(zero@ =~= Seq::new(32, |i: int| 0u8));
        insert_account(&mut self.db, address, zero, 1, bytecode);
    }

    /// Sends a call to `address` with `calldata` and commits what it did.
    /// Where the EVM runs the transaction, whether the call succeeded,
    /// reverted or halted, the outcome is its reply, its state is committed
    /// and the nonce advances; where it refuses it, the error comes back and
    /// the harness is unchanged.
    pub fn call(&mut self, address: [u8; 20], calldata: &[u8]) -> (r: Result<ExecutionOutcome, EvmError>)
        requires
            old(self).model().nonce < u64::MAX,
        ensures
            match old(self).model().reply_to(address@, calldata@) {
                Err(e) => r == Err::<ExecutionOutcome, EvmError>(e) && *final(self) == *old(self),
                Ok(reply) => r matches Ok(o) && answers(o, reply) && final(self).model() == old(
                    self,
                ).model().after(reply) && failure_keeps_code(old(self).model().accounts, reply),
            },
    {
        let executed = match transact(
            &self.db,
            self.block_gas_limit,
            self.spec,
            self.caller,
            address,
            calldata,
            self.nonce,
            self.gas_limit,
            0,
        ) {
            Ok(executed) => executed,
            Err(e) => return Err(e),
        };
        let result = transaction_result(&executed);
        let logs = transaction_logs(&executed);
        let slots = touched_slots(&executed);
        let gas_used = transaction_gas_used(&executed);
        let outcome = ExecutionOutcome::from_result(result, logs, &slots, gas_used);
        proof {
            assert forall|s: Seq<StorageSlot>| #[trigger]
                s.to_multiset() == reply_slots(executed) implies outcome.storage_changes@.to_multiset()
                == changed_slots(s).to_multiset() by {
                crate::evm::lemma_changed_slots_reorder(slots@, s);
            }
            assert(slots@.to_multiset() == reply_slots(executed));
            crate::evm::lemma_changed_keys_distinct(slots@);
            crate::evm::lemma_keys_distinct_by_multiset(outcome.storage_changes@, changed_slots(slots@));
        }
        commit(&mut self.db, executed);
        self.nonce = self.nonce + 1;
        Ok(outcome)
    }

    /// Installs `bytecode` at `address` and calls it with `calldata`.
    pub fn execute_code(&mut self, address: [u8; 20], bytecode: &[u8], calldata: &[u8]) -> (r: Result<
        ExecutionOutcome,
        EvmError,
    >)
        requires
            old(self).model().nonce < u64::MAX,
            !malformed_delegation(bytecode@),
        ensures
            ({
                let m1 = old(self).model().with_code(address@, bytecode@);
                match m1.reply_to(address@, calldata@) {
                    Err(e) => r == Err::<ExecutionOutcome, EvmError>(e) && final(self).model() == m1,
                    Ok(reply) => r matches Ok(o) && answers(o, reply) && final(self).model() == m1.after(reply)
                        && failure_keeps_code(m1.accounts, reply),
                }
            }),
    {
        self.install_code(address, bytecode);
        self.call(address, calldata)
    }

    /// Runs `initcode` at `address` with no calldata and, where it succeeds,
    /// installs the code it returned there as the contract's runtime code;
    /// where the returned code is a malformed delegation, which the EVM
    /// cannot hold, nothing is installed and `None` comes back.
    pub fn try_deploy_at(&mut self, address: [u8; 20], initcode: &[u8]) -> (r: Option<
        Result<DeployOutcome, EvmError>,
    >)
        requires
            old(self).model().nonce < u64::MAX,
            !malformed_delegation(initcode@),
        ensures
            ({
                let m1 = old(self).model().with_code(address@, initcode@);
                match m1.reply_to(address@, Seq::empty()) {
                    Err(e) => r == Some(Err::<DeployOutcome, EvmError>(e)) && final(self).model() == m1,
                    Ok(reply) => if runtime_installable(old(self).model(), address@, initcode@) {
                        r matches Some(Ok(d)) && d.address == address && d.runtime_bytecode@ == d.init.output@
                            && answers(d.init, reply) && final(self).model() == deployed_model(
                            old(self).model(),
                            address@,
                            initcode@,
                            reply,
                        ) && initcode_stays(final(self).model(), address@, initcode@, reply)
                    } else {
                        r is None && final(self).model() == m1.after(reply)
                    },
                }
            }),
    {
        let empty: [u8; 0] = [];
        assert(empty@ =~= Seq::<u8>::empty());
        let ghost m1 = self.model().with_code(address@, initcode@);
        let init = match self.execute_code(address, initcode, empty.as_slice()) {
            Ok(init) => init,
            Err(e) => return Some(Err(e)),
        };
        proof {
            assert(m1.accounts.contains_key(address@));
        }
        let runtime_bytecode = crate::evm::copy_bytes(&init.output);
        if init.status.is_success() {
            if is_malformed_delegation(&runtime_bytecode) {
                return None;
            }
            self.install_code(address, &runtime_bytecode);
        }
        Some(Ok(DeployOutcome { address, runtime_bytecode, init }))
    }

    /// Runs `initcode` at `address` with no calldata; where it succeeds, the
    /// code it returned is installed there as the contract's runtime code. A
    /// deployment whose init code reverted or halted is still `Ok`.
    pub fn deploy_at(&mut self, address: [u8; 20], initcode: &[u8]) -> (r: Result<DeployOutcome, EvmError>)
        requires
            old(self).model().nonce < u64::MAX,
            !malformed_delegation(initcode@),
            runtime_installable(old(self).model(), address@, initcode@),
        ensures
            ({
                let m1 = old(self).model().with_code(address@, initcode@);
                match m1.reply_to(address@, Seq::empty()) {
                    Err(e) => r == Err::<DeployOutcome, EvmError>(e) && final(self).model() == m1,
                    Ok(reply) => r matches Ok(d) && d.address == address && d.runtime_bytecode@
                        == d.init.output@ && answers(d.init, reply) && final(self).model()
                        == deployed_model(old(self).model(), address@, initcode@, reply) && initcode_stays(
                        final(self).model(),
                        address@,
                        initcode@,
                        reply,
                    ),
                }
            }),
    {
        match self.try_deploy_at(address, initcode) {
            Some(r) => r,
            None => vstd::pervasive::unreached(),
        }
    }

    /// Deploys `initcode` at the default contract address.
    pub fn deploy(&mut self, initcode: &[u8]) -> (r: Result<DeployOutcome, EvmError>)
        requires
            old(self).model().nonce < u64::MAX,
            !malformed_delegation(initcode@),
            runtime_installable(old(self).model(), Seq::new(20, |i: int| 0xCCu8), initcode@),
        ensures
            ({
                let address = Seq::new(20, |i: int| 0xCCu8);
                let m1 = old(self).model().with_code(address, initcode@);
                match m1.reply_to(address, Seq::empty()) {
                    Err(e) => r == Err::<DeployOutcome, EvmError>(e) && final(self).model() == m1,
                    Ok(reply) => r matches Ok(d) && d.address@ == address && d.runtime_bytecode@
                        == d.init.output@ && answers(d.init, reply) && final(self).model()
                        == deployed_model(old(self).model(), address, initcode@, reply) && initcode_stays(
                        final(self).model(),
                        address,
                        initcode@,
                        reply,
                    ),
                }
            }),
    {
        self.deploy_at(default_contract(), initcode)
    }
}

/// Whether `code` is a malformed delegation.
pub fn is_malformed_delegation(code: &[u8]) -> (r: bool)
    ensures
        r == malformed_delegation(code@),
{
    code.len() >= 2 && code[0] == 0xEFu8 && code[1] == 0x01u8 && !(code.len() == 23 && code[2] == 0x00u8)
}

} // verus!
