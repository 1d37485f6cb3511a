use crate::transaction::{clone_strings, strs_view, transaction_id, Transaction, TransactionView};
use vstd::prelude::*;

verus! {

/// The message by which a transaction is sent to peers.
#[derive(Debug)]
pub struct TransactionMessage {
    /// Unique identifier of the transaction.
    pub transaction_id: String,
    /// Data carried by the transaction.
    pub transaction_data: String,
    /// Ids of the parent transactions in the DAG (empty for a first transaction).
    pub parents: Vec<String>,
}

/// The mathematical value of a transaction message.
pub struct TransactionMessageView {
    pub transaction_id: Seq<char>,
    pub transaction_data: Seq<char>,
    pub parents: Seq<Seq<char>>,
}

impl View for TransactionMessage {
    type V = TransactionMessageView;

    open spec fn view(&self) -> TransactionMessageView {
        TransactionMessageView {
            transaction_id: self.transaction_id@,
            transaction_data: self.transaction_data@,
            parents: strs_view(self.parents@),
        }
    }
}

impl Clone for TransactionMessage {
    fn clone(&self) -> (res: Self)
        ensures
            res@ == self@,
    {
        TransactionMessage {
            transaction_id: self.transaction_id.clone(),
            transaction_data: self.transaction_data.clone(),
            parents: clone_strings(&self.parents),
        }
    }
}

/// The message that announces transaction `t`.
pub open spec fn message_of(t: TransactionView) -> TransactionMessageView {
    TransactionMessageView { transaction_id: t.id, transaction_data: t.data, parents: t.parents }
}

/// The transaction that a receiver builds from message `m`: the id is
/// derived again from the data and parents, not taken from the message.
pub open spec fn rebuilt(m: TransactionMessageView) -> TransactionView {
    TransactionView {
        id: transaction_id(m.transaction_data, m.parents),
        data: m.transaction_data,
        parents: m.parents,
    }
}

impl TransactionMessage {
    /// The message that announces `transaction`, field for field.
    pub fn from_transaction(transaction: Transaction) -> (m: TransactionMessage)
        ensures
            m@ == message_of(transaction@),
    {
        TransactionMessage {
            transaction_id: transaction.id,
            transaction_data: transaction.data,
            parents: transaction.parents,
        }
    }
}

impl Transaction {
    /// The transaction that a received message stands for: built from its
    /// data and parents, so that its id is derived afresh.
    pub fn from_message(message: &TransactionMessage) -> (t: Transaction)
        ensures
            t@ == rebuilt(message@),
            t.id@ == transaction_id(message.transaction_data@, strs_view(message.parents@)),
            t.data@ == message.transaction_data@,
            t.parents@ == message.parents@,
            t.id@.len() == 64,
    {
        Transaction::new(message.transaction_data.clone(), clone_strings(&message.parents))
    }
}

/// The transaction rebuilt from a message does not depend on the id that
/// the message carries: messages with the same data and parents give the
/// same transaction, and its id is the one derived from that data and those
/// parents.
pub proof fn lemma_rebuilt_ignores_carried_id(m1: TransactionMessageView, m2: TransactionMessageView)
    requires
        m1.transaction_data == m2.transaction_data,
        m1.parents == m2.parents,
    ensures
        rebuilt(m1) == rebuilt(m2),
        rebuilt(m1).id == transaction_id(m1.transaction_data, m1.parents),
        rebuilt(m1).data == m1.transaction_data,
        rebuilt(m1).parents == m1.parents,
{
}

/// A transaction sent to a peer is rebuilt there as the very same
/// transaction, id included, whenever its id is the one derived from its
/// contents (as it is for every transaction made by `Transaction::new`).
pub proof fn lemma_message_round_trip(t: TransactionView)
    requires
        t.has_derived_id(),
    ensures
        rebuilt(message_of(t)) == t,
{
}

} // verus!
