//! A wallet: a signing key pair, accounts with balances, and transactions built
//! from them. Signing is a placeholder and submission only hands the id back.

use vstd::prelude::*;
use crate::encoding::lower_hex;
use crate::random::{fresh_uuid_text, generate_ed25519_keypair};
use crate::ledger::texts;
use crate::time::Timestamp;

verus! {

/// Relies on hex's `encode`: two lowercase digits per byte, high nibble first.
#[verifier::external_body]
fn hex_encode(bytes: &[u8]) -> (r: String)
    ensures
        r@ == lower_hex(bytes@),
{
    hex::encode(bytes)
}

/// Errors of wallet operations.
#[derive(Debug, PartialEq, Eq)]
pub enum WalletError {
    /// Reading or writing the wallet's file failed.
    IoError(String),
    /// The operation needs a key pair and none is loaded.
    KeyNotFound(String),
    /// No account has the address.
    WalletNotFound(String),
    /// The wallet's data is malformed.
    InvalidWalletData(String),
    /// Amount plus fee (saturated at the largest u64) exceeds the balance.
    InsufficientFunds(u64, u64),
}

pub enum WalletErrorModel {
    IoError(Seq<char>),
    KeyNotFound(Seq<char>),
    WalletNotFound(Seq<char>),
    InvalidWalletData(Seq<char>),
    InsufficientFunds(u64, u64),
}

impl View for WalletError {
    type V = WalletErrorModel;

    open spec fn view(&self) -> WalletErrorModel {
        match self {
            WalletError::IoError(s) => WalletErrorModel::IoError(s@),
            WalletError::KeyNotFound(s) => WalletErrorModel::KeyNotFound(s@),
            WalletError::WalletNotFound(s) => WalletErrorModel::WalletNotFound(s@),
            WalletError::InvalidWalletData(s) => WalletErrorModel::InvalidWalletData(s@),
            WalletError::InsufficientFunds(a, b) => WalletErrorModel::InsufficientFunds(*a, *b),
        }
    }
}

/// Kinds of transaction.
#[derive(Debug, Clone, Copy, PartialEq, Eq, Structural)]
pub enum TransactionType {
    Transfer,
    Stake,
    Unstake,
}

/// Where a transaction stands.
#[derive(Debug, Clone, Copy, PartialEq, Eq, Structural)]
pub enum TransactionStatus {
    Pending,
    Confirmed,
    Failed,
}

/// A transaction record. `data` is an optional document in its JSON text.
#[derive(Debug)]
pub struct Transaction {
    pub id: String,
    pub transaction_type: TransactionType,
    pub amount: u64,
    pub fee: u64,
    pub sender: String,
    pub recipient: String,
    pub timestamp: Timestamp,
    pub status: TransactionStatus,
    pub signature: Option<String>,
    pub data: Option<String>,
}

/// An account of the wallet.
#[derive(Debug)]
pub struct Account {
    pub address: String,
    pub public_key: String,
    pub balance: u64,
    pub nonce: u64,
    pub transactions: Vec<String>,
}

pub struct AccountModel {
    pub address: Seq<char>,
    pub public_key: Seq<char>,
    pub balance: u64,
    pub nonce: u64,
    pub transactions: Seq<Seq<char>>,
}

impl View for Account {
    type V = AccountModel;

    open spec fn view(&self) -> AccountModel {
        AccountModel {
            address: self.address@,
            public_key: self.public_key@,
            balance: self.balance,
            nonce: self.nonce,
            transactions: texts(self.transactions@),
        }
    }
}

/// The prefix of every address.
pub open spec fn address_prefix() -> Seq<char> {
    seq!['g', 's', 'i', 'o', '_']
}

/// The address of a public key: the prefix and the hexadecimal text of the
/// key's first 20 bytes.
pub open spec fn address_of(public_key: Seq<u8>) -> Seq<char> {
    address_prefix() + lower_hex(public_key.subrange(0, 20))
}

/// Accounts by address; a later account with the same address hides an earlier one.
pub open spec fn account_map(accounts: Seq<AccountModel>) -> Map<Seq<char>, AccountModel>
    decreases accounts.len(),
{
    if accounts.len() == 0 {
        Map::empty()
    } else {
        account_map(accounts.drop_last()).insert(accounts.last().address, accounts.last())
    }
}

pub open spec fn account_models(v: Seq<Account>) -> Seq<AccountModel> {
    v.map_values(|a: Account| a@)
}

pub open spec fn total_cost(amount: u64, fee: u64) -> int {
    amount + fee
}

/// The required sum reported by `InsufficientFunds`: amount plus fee, or the
/// largest u64 when that sum does not fit.
pub open spec fn reported_cost(amount: u64, fee: u64) -> u64 {
    if total_cost(amount, fee) > u64::MAX {
        u64::MAX
    } else {
        (amount + fee) as u64
    }
}

/// A wallet: at most one key pair, its accounts, and where it is stored.
pub struct Wallet {
    keypair: Option<ed25519_dalek::Keypair>,
    accounts: Vec<Account>,
    wallet_path: Option<String>,
}

impl Wallet {
    /// The accounts by address.
    pub closed spec fn accounts(&self) -> Map<Seq<char>, AccountModel> {
        account_map(account_models(self.accounts@))
    }

    /// A key pair is loaded.
    pub closed spec fn has_key(&self) -> bool {
        self.keypair is Some
    }

    /// Where the wallet is stored, once known.
    pub closed spec fn path(&self) -> Option<Seq<char>> {
        match self.wallet_path {
            Some(p) => Some(p@),
            None => None,
        }
    }

    /// An empty wallet: no key pair, no accounts, no path.
    pub fn new() -> (r: Wallet)
        ensures
            !r.has_key(),
            r.accounts() == Map::<Seq<char>, AccountModel>::empty(),
            r.path() is None,
    {
        let r = Wallet { keypair: None, accounts: Vec::new(), wallet_path: None };
        assert(account_models(r.accounts@) =~= Seq::<AccountModel>::empty());
        r
    }

    /// True when a key pair is loaded.
    pub fn has_keypair(&self) -> (r: bool)
        ensures
            r == self.has_key(),
    {
        self.keypair.is_some()
    }

    /// The number of account records held.
    pub fn account_count(&self) -> (r: usize)
        ensures
            r == 0 <==> self.accounts() == Map::<Seq<char>, AccountModel>::empty(),
    {
        let ghost all = account_models(self.accounts@);
        if self.accounts.len() == 0 {
            assert(all =~= Seq::<AccountModel>::empty());
        } else {
            assert(account_map(all).contains_key(all.last().address));
        }
        self.accounts.len()
    }

    /// Generates a fresh key pair, opens an account with balance zero for it and
    /// returns the account's address.
    pub fn generate_keypair(&mut self) -> (r: Result<String, WalletError>)
        ensures
            final(self).has_key(),
            final(self).path() == old(self).path(),
            r matches Ok(address) && exists|pk: Seq<u8>|
                pk.len() == 32 && address@ == address_of(pk) && final(self).accounts()
                    == old(self).accounts().insert(
                    address@,
                    AccountModel {
                        address: address@,
                        public_key: lower_hex(pk),
                        balance: 0,
                        nonce: 0,
                        transactions: Seq::empty(),
                    },
                ),
    {
        let (keypair, public) = generate_ed25519_keypair();
        let ghost pk = public@;
        let head = slice_prefix(&public, 20);
        let mut address = literal_prefix();
        let digits = hex_encode(head.as_slice());
        address.append(digits.as_str());
        assert(address@ =~= address_of(pk));
        self.keypair = Some(keypair);
        let public_key = hex_encode(public.as_slice());
        let account = Account {
            address: address.clone(),
            public_key,
            balance: 0,
            nonce: 0,
            transactions: Vec::new(),
        };
        let ghost model = account@;
        assert(model.transactions =~= Seq::<Seq<char>>::empty());
        let ghost before = self.accounts@;
        self.accounts.push(account);
        assert(account_models(self.accounts@).drop_last() =~= account_models(before));
        Ok(address)
    }

    /// Records the file the wallet is kept in. Nothing is read yet.
    pub fn load(&mut self, path: String) -> (r: Result<(), WalletError>)
        ensures
            r is Ok,
            final(self).path() == Some(path@),
            final(self).accounts() == old(self).accounts(),
            final(self).has_key() == old(self).has_key(),
    {
        self.wallet_path = Some(path);
        Ok(())
    }

    /// Fails when no path is known; nothing is written yet.
    pub fn save(&self) -> (r: Result<(), WalletError>)
        ensures
            r is Ok <==> self.path() is Some,
            r matches Err(e) ==> e@ == WalletErrorModel::IoError(path_not_set()),
    {
        match &self.wallet_path {
            Some(_) => Ok(()),
            None => Err(WalletError::IoError(path_not_set_text())),
        }
    }

    /// The account with `address`.
    pub fn get_account(&self, address: &str) -> (r: Result<&Account, WalletError>)
        ensures
            r is Ok <==> self.accounts().contains_key(address@),
            r matches Ok(a) ==> a@ == self.accounts()[address@],
            r matches Err(e) ==> e@ == WalletErrorModel::WalletNotFound(address@),
    {
        let key = address.to_owned();
        let mut i: usize = self.accounts.len();
        let ghost all = account_models(self.accounts@);
        proof {
            lemma_account_map_split(all, all.len() as int);
            assert(all.subrange(all.len() as int, all.len() as int) =~= Seq::<AccountModel>::empty());
        }
        while i > 0
            invariant
                i <= self.accounts@.len(),
                key@ == address@,
                all == account_models(self.accounts@),
                account_map(all) == account_map(all.subrange(0, i as int)).union_prefer_right(
                    account_map(all.subrange(i as int, all.len() as int)),
                ),
                !account_map(all.subrange(i as int, all.len() as int)).contains_key(address@),
            decreases i,
        {
            let ghost pre = all.subrange(0, i as int);
            let ghost post = all.subrange(i as int, all.len() as int);
            assert(pre.drop_last() =~= all.subrange(0, i - 1));
            assert(pre.last() == all[i - 1]);
            if self.accounts[i - 1].address == key {
                proof {
                    assert(all[i - 1] == self.accounts@[i - 1]@);
                    assert(pre.last().address == address@);
                    assert(account_map(pre) == account_map(pre.drop_last()).insert(
                        pre.last().address,
                        pre.last(),
                    ));
                    assert(account_map(pre).contains_key(address@));
                    assert(account_map(pre)[address@] == all[i - 1]);
                    assert(account_map(all).contains_key(address@));
                    assert(account_map(all)[address@] == all[i - 1]);
                }
                return Ok(&self.accounts[i - 1]);
            }
            proof {
                assert(all[i - 1] == self.accounts@[i - 1]@);
                lemma_account_map_split(all, i - 1);
                let post2 = all.subrange(i - 1, all.len() as int);
                lemma_account_map_split(post2, 1);
                assert(post2.subrange(1, post2.len() as int) =~= post);
                let one = post2.subrange(0, 1);
                assert(one.drop_last() =~= Seq::<AccountModel>::empty());
                assert(one.last() == all[i - 1]);
                assert(all[i - 1].address != address@);
                assert(account_map(one.drop_last()) == Map::<Seq<char>, AccountModel>::empty());
                assert(!account_map(one).contains_key(address@));
            }
            i -= 1;
        }
        proof {
            assert(all.subrange(0, 0) =~= Seq::<AccountModel>::empty());
            assert(all.subrange(0, all.len() as int) =~= all);
        }
        Err(WalletError::WalletNotFound(address.to_owned()))
    }

    /// The balance of the account with `address`.
    pub fn get_balance(&self, address: &str) -> (r: Result<u64, WalletError>)
        ensures
            r is Ok <==> self.accounts().contains_key(address@),
            r matches Ok(b) ==> b == self.accounts()[address@].balance,
            r matches Err(e) ==> e@ == WalletErrorModel::WalletNotFound(address@),
    {
        let account = self.get_account(address)?;
        Ok(account.balance)
    }

    /// A pending, unsigned transaction of `amount` plus `fee` from `sender` to
    /// `recipient`, stamped now with a fresh id. Fails when `sender` has no
    /// account, or when its balance is below amount plus fee.
    pub fn create_transaction(
        &self,
        sender: &str,
        recipient: &str,
        amount: u64,
        fee: u64,
        transaction_type: TransactionType,
        data: Option<String>,
    ) -> (r: Result<Transaction, WalletError>)
        ensures
            !self.accounts().contains_key(sender@) ==> (r matches Err(e) && e@
                == WalletErrorModel::WalletNotFound(sender@)),
            self.accounts().contains_key(sender@) && self.accounts()[sender@].balance < total_cost(
                amount,
                fee,
            ) ==> (r matches Err(e) && e@ == WalletErrorModel::InsufficientFunds(
                reported_cost(amount, fee),
                self.accounts()[sender@].balance,
            )),
            self.accounts().contains_key(sender@) && self.accounts()[sender@].balance >= total_cost(
                amount,
                fee,
            ) ==> (r matches Ok(t) && {
                &&& t.id@.len() == 36
                &&& t.transaction_type == transaction_type
                &&& t.amount == amount
                &&& t.fee == fee
                &&& t.sender@ == sender@
                &&& t.recipient@ == recipient@
                &&& t.status == TransactionStatus::Pending
                &&& t.signature is None
                &&& t.data == data
            }),
    {
        let account = match self.get_account(sender) {
            Ok(a) => a,
            Err(e) => return Err(e),
        };
        let required: u64 = if amount > u64::MAX - fee {
            u64::MAX
        } else {
            amount + fee
        };
        if amount > u64::MAX - fee || account.balance < required {
            return Err(WalletError::InsufficientFunds(required, account.balance));
        }
        Ok(
            Transaction {
                id: fresh_uuid_text(),
                transaction_type,
                amount,
                fee,
                sender: sender.to_owned(),
                recipient: recipient.to_owned(),
                timestamp: Timestamp::now(),
                status: TransactionStatus::Pending,
                signature: None,
                data,
            },
        )
    }

    /// Puts the placeholder signature on `transaction`; fails when no key pair
    /// is loaded, and then leaves the transaction alone.
    pub fn sign_transaction(&self, transaction: &mut Transaction) -> (r: Result<(), WalletError>)
        ensures
            r is Ok <==> self.has_key(),
            r matches Err(e) ==> e@ == WalletErrorModel::KeyNotFound(no_keypair())
                && *final(transaction) == *old(transaction),
            r is Ok ==> (final(transaction).signature matches Some(s) && s@ == placeholder_signature())
                && final(transaction).id == old(transaction).id
                && final(transaction).amount == old(transaction).amount
                && final(transaction).fee == old(transaction).fee
                && final(transaction).sender == old(transaction).sender
                && final(transaction).recipient == old(transaction).recipient,
    {
        if self.keypair.is_none() {
            return Err(WalletError::KeyNotFound(no_keypair_text()));
        }
        transaction.signature = Some(placeholder_signature_text());
        Ok(())
    }

    /// Hands the transaction's id back; nothing is sent.
    pub fn submit_transaction(&self, transaction: &Transaction) -> (r: Result<String, WalletError>)
        ensures
            r matches Ok(id) && id@ == transaction.id@,
    {
        Ok(transaction.id.clone())
    }

    /// The transaction ids recorded for the account with `address`.
    pub fn get_transaction_history(&self, address: &str) -> (r: Result<Vec<String>, WalletError>)
        ensures
            r is Ok <==> self.accounts().contains_key(address@),
            r matches Ok(v) ==> texts(v@) == self.accounts()[address@].transactions,
            r matches Err(e) ==> e@ == WalletErrorModel::WalletNotFound(address@),
    {
        let account = self.get_account(address)?;
        Ok(crate::ledger::copy_texts(&account.transactions))
    }
}

proof fn lemma_account_map_split(all: Seq<AccountModel>, i: int)
    requires
        0 <= i <= all.len(),
    ensures
        account_map(all) == account_map(all.subrange(0, i)).union_prefer_right(
            account_map(all.subrange(i, all.len() as int)),
        ),
    decreases all.len(),
{
    if i == all.len() {
        assert(all.subrange(0, i) =~= all);
        assert(all.subrange(i, all.len() as int) =~= Seq::<AccountModel>::empty());
        assert(account_map(all).union_prefer_right(Map::empty()) =~= account_map(all));
    } else {
        let init = all.drop_last();
        lemma_account_map_split(init, i);
        assert(init.subrange(0, i) =~= all.subrange(0, i));
        let tail = all.subrange(i, all.len() as int);
        assert(tail.drop_last() =~= init.subrange(i, init.len() as int));
        assert(tail.last() == all.last());
        assert(account_map(all) =~= account_map(all.subrange(0, i)).union_prefer_right(
            account_map(tail),
        ));
    }
}

pub open spec fn path_not_set() -> Seq<char> {
    seq!['W', 'a', 'l', 'l', 'e', 't', ' ', 'p', 'a', 't', 'h', ' ', 'n', 'o', 't', ' ', 's', 'e', 't']
}

pub open spec fn no_keypair() -> Seq<char> {
    seq!['N', 'o', ' ', 'k', 'e', 'y', 'p', 'a', 'i', 'r', ' ', 'l', 'o', 'a', 'd', 'e', 'd']
}

/// The signature that signing puts on a transaction until real signing exists.
pub open spec fn placeholder_signature() -> Seq<char> {
    seq!['d', 'u', 'm', 'm', 'y', '_', 's', 'i', 'g', 'n', 'a', 't', 'u', 'r', 'e']
}

fn path_not_set_text() -> (r: String)
    ensures
        r@ == path_not_set(),
{
    proof {
        reveal_strlit("Wallet path not set");
    }
    let s: &'static str = "Wallet path not set";
    assert(s@ =~= path_not_set());
    s.to_owned()
}

fn no_keypair_text() -> (r: String)
    ensures
        r@ == no_keypair(),
{
    proof {
        reveal_strlit("No keypair loaded");
    }
    let s: &'static str = "No keypair loaded";
    assert(s@ =~= no_keypair());
    s.to_owned()
}

fn placeholder_signature_text() -> (r: String)
    ensures
        r@ == placeholder_signature(),
{
    proof {
        reveal_strlit("dummy_signature");
    }
    let s: &'static str = "dummy_signature";
    assert(s@ =~= placeholder_signature());
    s.to_owned()
}

fn literal_prefix() -> (r: String)
    ensures
        r@ == address_prefix(),
{
    proof {
        reveal_strlit("gsio_");
    }
    let s: &'static str = "gsio_";
    assert(s@ =~= address_prefix());
    s.to_owned()
}

fn slice_prefix(v: &Vec<u8>, n: usize) -> (r: Vec<u8>)
    requires
        n <= v@.len(),
    ensures
        r@ == v@.subrange(0, n as int),
{
    let mut out: Vec<u8> = Vec::new();
    let mut i: usize = 0;
    while i < n
        invariant
            n <= v@.len(),
            i <= n,
            out@ == v@.subrange(0, i as int),
        decreases n - i,
    {
        out.push(v[i]);
        assert(out@ =~= v@.subrange(0, i as int + 1));
        i += 1;
    }
    out
}

} // verus!
