//! The pool of provided transactions: transactions every validator is
//! expected to introduce identically, provided once each, completed in
//! first-in first-out order.

use vstd::prelude::*;

verus! {

/// How a transaction enters a block.
#[derive(Clone, Copy, PartialEq, Eq, Structural, Debug)]
pub enum TransactionKind {
    /// Provided out of band, identically, by every validator.
    Provided,
    /// Introduced without a signature.
    Unsigned,
    /// Signed by its author.
    Signed,
}

/// Why a transaction failed validation.
#[derive(Clone, Copy, PartialEq, Eq, Structural, Debug)]
pub enum TransactionError {
    /// The transaction's content was malformed.
    InvalidContent,
    /// The transaction's signature did not verify.
    InvalidSignature,
}

/// Errors when providing a transaction.
#[derive(Clone, Copy, PartialEq, Eq, Structural, Debug)]
pub enum ProvidedError {
    /// The provided transaction's kind wasn't Provided.
    NotProvided,
    /// The provided transaction was invalid.
    InvalidProvided(TransactionError),
    /// The transaction was already provided.
    AlreadyProvided,
}

/// A transaction of the tributary, implemented by its users. The
/// specification functions make each method's answer a function of the
/// value, which the pool's bookkeeping rests on.
pub trait Transaction: Sized {
    /// The transaction's hash.
    spec fn spec_hash(&self) -> [u8; 32];

    /// How the transaction enters a block.
    spec fn spec_kind(&self) -> TransactionKind;

    /// Whether the transaction is valid on its own.
    spec fn spec_valid(&self) -> bool;

    /// Compute the transaction's hash.
    fn hash(&self) -> (r: [u8; 32])
        ensures
            r == self.spec_hash(),
    ;

    /// Report how the transaction enters a block.
    fn kind(&self) -> (r: TransactionKind)
        ensures
            r == self.spec_kind(),
    ;

    /// Validate the transaction on its own.
    fn verify(&self) -> (r: Result<(), TransactionError>)
        ensures
            (r is Ok) == self.spec_valid(),
    ;
}

/// Whether a list of hashes holds one.
pub open spec fn contains_hash(s: Seq<[u8; 32]>, h: [u8; 32]) -> bool {
    exists|i: int| 0 <= i < s.len() && s[i] == h
}

/// Decide membership of a hash.
fn hashes_contain(v: &Vec<[u8; 32]>, h: &[u8; 32]) -> (r: bool)
    ensures
        r == contains_hash(v@, *h),
{
    let mut i: usize = 0;
    while i < v.len()
        invariant
            i <= v@.len(),
            forall|j: int| 0 <= j < i ==> v@[j] != *h,
        decreases v@.len() - i,
    {
        if crate::ids::bytes32_eq(&v[i], h) {
            return true;
        }
        i += 1;
    }
    false
}

/// The currently provided transactions of one tributary, in the order they
/// were provided, together with every hash ever provided.
pub struct ProvidedTransactions<T: Transaction> {
    genesis: [u8; 32],
    transactions: Vec<T>,
    provided_hashes: Vec<[u8; 32]>,
}

impl<T: Transaction> ProvidedTransactions<T> {
    /// The tributary's genesis this pool belongs to.
    pub closed spec fn spec_genesis(self) -> [u8; 32] {
        self.genesis
    }

    /// The queue of provided transactions awaiting completion.
    pub closed spec fn spec_queue(self) -> Seq<T> {
        self.transactions@
    }

    /// Every hash ever provided.
    pub closed spec fn spec_provided(self) -> Seq<[u8; 32]> {
        self.provided_hashes@
    }

    /// Create an empty pool for a tributary with no history.
    pub fn new(genesis: [u8; 32]) -> (r: ProvidedTransactions<T>)
        ensures
            r.spec_genesis() == genesis,
            r.spec_queue() == Seq::<T>::empty(),
            r.spec_provided() == Seq::<[u8; 32]>::empty(),
    {
        ProvidedTransactions { genesis, transactions: Vec::new(), provided_hashes: Vec::new() }
    }

    /// Rebuild the pool from its durable image at boot: the queue of
    /// transactions still awaiting completion, in provision order, and
    /// every hash ever provided. The store around this pool persists both,
    /// as it persists the signers' rows; the reader hands them back here.
    pub fn restore(
        genesis: [u8; 32],
        transactions: Vec<T>,
        provided_hashes: Vec<[u8; 32]>,
    ) -> (r: ProvidedTransactions<T>)
        ensures
            r.spec_genesis() == genesis,
            r.spec_queue() == transactions@,
            r.spec_provided() == provided_hashes@,
    {
        ProvidedTransactions { genesis, transactions, provided_hashes }
    }

    /// The durable image to persist: the pending queue and the full list of
    /// provided hashes, as `restore` takes them back.
    pub fn durable_image(&self) -> (r: (&Vec<T>, &Vec<[u8; 32]>))
        ensures
            r.0@ == self.spec_queue(),
            r.1@ == self.spec_provided(),
    {
        (&self.transactions, &self.provided_hashes)
    }

    /// Provide a transaction for inclusion in a block: it must be of the
    /// provided kind, valid, and never provided before. Accepted
    /// transactions queue in provision order.
    pub fn provide(&mut self, tx: T) -> (r: Result<(), ProvidedError>)
        ensures
            final(self).spec_genesis() == old(self).spec_genesis(),
            match r {
                Ok(_) => {
                    &&& tx.spec_kind() == TransactionKind::Provided
                    &&& tx.spec_valid()
                    &&& !contains_hash(old(self).spec_provided(), tx.spec_hash())
                    &&& final(self).spec_queue() == old(self).spec_queue().push(tx)
                    &&& final(self).spec_provided() == old(self).spec_provided().push(
                        tx.spec_hash(),
                    )
                },
                Err(ProvidedError::NotProvided) => {
                    &&& tx.spec_kind() != TransactionKind::Provided
                    &&& *final(self) == *old(self)
                },
                Err(ProvidedError::InvalidProvided(_)) => {
                    &&& tx.spec_kind() == TransactionKind::Provided
                    &&& !tx.spec_valid()
                    &&& *final(self) == *old(self)
                },
                Err(ProvidedError::AlreadyProvided) => {
                    &&& tx.spec_kind() == TransactionKind::Provided
                    &&& tx.spec_valid()
                    &&& contains_hash(old(self).spec_provided(), tx.spec_hash())
                    &&& *final(self) == *old(self)
                },
            },
    {
        if !matches!(tx.kind(), TransactionKind::Provided) {
            return Err(ProvidedError::NotProvided);
        }
        match tx.verify() {
            Ok(_) => {}
            Err(e) => {
                return Err(ProvidedError::InvalidProvided(e));
            }
        }
        let tx_hash = tx.hash();
        if hashes_contain(&self.provided_hashes, &tx_hash) {
            return Err(ProvidedError::AlreadyProvided);
        }
        self.provided_hashes.push(tx_hash);
        self.transactions.push(tx);
        Ok(())
    }

    /// Complete the front provided transaction, no longer proposing it nor
    /// voting for its validity. The front of the queue must carry the given
    /// hash; otherwise nothing changes.
    pub fn complete(&mut self, tx: [u8; 32]) -> (r: Option<T>)
        ensures
            final(self).spec_genesis() == old(self).spec_genesis(),
            final(self).spec_provided() == old(self).spec_provided(),
            match r {
                Some(done) => {
                    &&& old(self).spec_queue().len() > 0
                    &&& done == old(self).spec_queue()[0]
                    &&& done.spec_hash() == tx
                    &&& final(self).spec_queue() == old(self).spec_queue().skip(1)
                },
                None => {
                    &&& (old(self).spec_queue().len() == 0 || old(self).spec_queue()[0].spec_hash()
                        != tx)
                    &&& *final(self) == *old(self)
                },
            },
    {
        if self.transactions.len() == 0 {
            return None;
        }
        let front_hash = self.transactions[0].hash();
        if !crate::ids::bytes32_eq(&front_hash, &tx) {
            return None;
        }
        let done = self.transactions.remove(0);
        Some(done)
    }
}

} // verus!
