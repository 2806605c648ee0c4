//! Confirmed transactions: a transaction together with its place in the
//! block and the outcome of its finalize.
//!
//! Of a transaction the rules here read only its kind and, for a deployment,
//! the number of mappings that its program declares; of a finalize operation
//! only its kind. A rejected deployment or execution is carried along as the
//! bytes of its own serialization.

use vstd::prelude::*;

verus! {

/// The type in which the number of finalize operations is counted.
pub type NumFinalizeSize = u16;

/// A transaction, as far as the confirmation rules read it.
#[derive(Debug, PartialEq, Eq)]
pub enum Transaction {
    /// A deployment of a program that declares `mappings` mappings.
    Deploy { id: Vec<u8>, mappings: usize },
    /// An execution.
    Execute { id: Vec<u8> },
    /// A fee.
    Fee { id: Vec<u8> },
}

impl Transaction {
    /// The transaction is a deployment.
    pub open spec fn spec_is_deploy(&self) -> bool {
        self is Deploy
    }

    /// The transaction is an execution.
    pub open spec fn spec_is_execute(&self) -> bool {
        self is Execute
    }

    /// The transaction is a fee.
    pub open spec fn spec_is_fee(&self) -> bool {
        self is Fee
    }

    /// Tells whether the transaction is a deployment.
    pub fn is_deploy(&self) -> (r: bool)
        ensures
            r == self.spec_is_deploy(),
    {
        match self {
            Transaction::Deploy { .. } => true,
            _ => false,
        }
    }

    /// Tells whether the transaction is an execution.
    pub fn is_execute(&self) -> (r: bool)
        ensures
            r == self.spec_is_execute(),
    {
        match self {
            Transaction::Execute { .. } => true,
            _ => false,
        }
    }

    /// Tells whether the transaction is a fee.
    pub fn is_fee(&self) -> (r: bool)
        ensures
            r == self.spec_is_fee(),
    {
        match self {
            Transaction::Fee { .. } => true,
            _ => false,
        }
    }
}

/// The kind of a finalize operation.
#[derive(Clone, Copy, Debug, PartialEq, Eq, Structural)]
pub enum FinalizeOperation {
    /// A mapping is initialized.
    InitializeMapping,
    /// A key-value pair is inserted.
    InsertKeyValue,
    /// A key-value pair is updated.
    UpdateKeyValue,
    /// A key-value pair is removed.
    RemoveKeyValue,
    /// A mapping is removed.
    RemoveMapping,
}

/// A safety wrapper around something that was rejected.
#[derive(Debug, PartialEq, Eq)]
pub struct Rejected<T>(pub T);

impl<T> Rejected<T> {
    /// Returns a reference to what was rejected.
    pub fn get(&self) -> (r: &T)
        ensures
            *r == self.0,
    {
        &self.0
    }
}

/// Why a transaction cannot be confirmed as asked.
#[derive(Clone, Copy, Debug, PartialEq, Eq, Structural)]
pub enum ConfirmError {
    /// The transaction is not a deployment.
    NotDeploy,
    /// The number of finalize operations is not the number of mappings of
    /// the deployed program.
    MappingCountMismatch,
    /// A finalize operation is of a kind that the transaction cannot have.
    InvalidFinalizeOperation,
    /// The transaction is not an execution.
    NotExecute,
    /// The transaction is not a fee.
    NotFee,
}

/// A confirmed transaction.
#[derive(Debug, PartialEq, Eq)]
pub enum ConfirmedTransaction {
    /// An accepted deployment: the index, the deployment, its finalize
    /// operations.
    AcceptedDeploy(u32, Transaction, Vec<FinalizeOperation>),
    /// An accepted execution: the index, the execution, its finalize
    /// operations.
    AcceptedExecute(u32, Transaction, Vec<FinalizeOperation>),
    /// A rejected deployment: the index, the fee, the rejected deployment.
    RejectedDeploy(u32, Transaction, Rejected<Vec<u8>>),
    /// A rejected execution: the index, the fee, the rejected execution.
    RejectedExecute(u32, Transaction, Rejected<Vec<u8>>),
}

/// Every operation initializes a mapping.
pub open spec fn all_initialize(operations: Seq<FinalizeOperation>) -> bool {
    forall|i: int| 0 <= i < operations.len() ==> operations[i] is InitializeMapping
}

/// Every operation inserts or updates a key-value pair.
pub open spec fn all_insert_or_update(operations: Seq<FinalizeOperation>) -> bool {
    forall|i: int|
        0 <= i < operations.len() ==> (operations[i] is InsertKeyValue
            || operations[i] is UpdateKeyValue)
}

/// Whether a deployment with these finalize operations can be accepted, and
/// if not, why: the transaction must be a deployment, there must be one
/// operation for each mapping of its program, and each must initialize a
/// mapping. The first rule that is broken gives the error.
pub open spec fn deploy_verdict(
    transaction: Transaction,
    operations: Seq<FinalizeOperation>,
) -> Result<(), ConfirmError> {
    match transaction {
        Transaction::Deploy { id, mappings } => if mappings != operations.len() {
            Err(ConfirmError::MappingCountMismatch)
        } else if !all_initialize(operations) {
            Err(ConfirmError::InvalidFinalizeOperation)
        } else {
            Ok(())
        },
        _ => Err(ConfirmError::NotDeploy),
    }
}

/// Whether an execution with these finalize operations can be accepted, and
/// if not, why: each operation must insert or update a key-value pair, and
/// the transaction must be an execution. The first rule that is broken gives
/// the error.
pub open spec fn execute_verdict(
    transaction: Transaction,
    operations: Seq<FinalizeOperation>,
) -> Result<(), ConfirmError> {
    if !all_insert_or_update(operations) {
        Err(ConfirmError::InvalidFinalizeOperation)
    } else if !transaction.spec_is_execute() {
        Err(ConfirmError::NotExecute)
    } else {
        Ok(())
    }
}

impl ConfirmedTransaction {
    /// Returns a new accepted deploy transaction, or the rule that forbids it.
    pub fn accepted_deploy(
        index: u32,
        transaction: Transaction,
        finalize_operations: Vec<FinalizeOperation>,
    ) -> (r: Result<Self, ConfirmError>)
        ensures
            match deploy_verdict(transaction, finalize_operations@) {
                Ok(_) => r == Ok::<Self, ConfirmError>(
                    ConfirmedTransaction::AcceptedDeploy(index, transaction, finalize_operations),
                ),
                Err(e) => r == Err::<Self, ConfirmError>(e),
            },
    {
        let mappings: usize = match &transaction {
            Transaction::Deploy { id, mappings } => *mappings,
            _ => {
                return Err(ConfirmError::NotDeploy);
            },
        };
        if mappings != finalize_operations.len() {
            return Err(ConfirmError::MappingCountMismatch);
        }
        let mut i: usize = 0;
        while i < finalize_operations.len()
            invariant
                i <= finalize_operations@.len(),
                transaction is Deploy,
                transaction->mappings == finalize_operations@.len(),
                forall|j: int| 0 <= j < i ==> finalize_operations@[j] is InitializeMapping,
            decreases finalize_operations@.len() - i,
        {
            match finalize_operations[i] {
                FinalizeOperation::InitializeMapping => {},
                _ => {
                    return Err(ConfirmError::InvalidFinalizeOperation);
                },
            }
            i += 1;
        }
        Ok(ConfirmedTransaction::AcceptedDeploy(index, transaction, finalize_operations))
    }

    /// Returns a new accepted execute transaction, or the rule that forbids
    /// it.
    pub fn accepted_execute(
        index: u32,
        transaction: Transaction,
        finalize_operations: Vec<FinalizeOperation>,
    ) -> (r: Result<Self, ConfirmError>)
        ensures
            match execute_verdict(transaction, finalize_operations@) {
                Ok(_) => r == Ok::<Self, ConfirmError>(
                    ConfirmedTransaction::AcceptedExecute(index, transaction, finalize_operations),
                ),
                Err(e) => r == Err::<Self, ConfirmError>(e),
            },
    {
        let mut i: usize = 0;
        while i < finalize_operations.len()
            invariant
                i <= finalize_operations@.len(),
                forall|j: int|
                    0 <= j < i ==> (finalize_operations@[j] is InsertKeyValue
                        || finalize_operations@[j] is UpdateKeyValue),
            decreases finalize_operations@.len() - i,
        {
            match finalize_operations[i] {
                FinalizeOperation::InsertKeyValue | FinalizeOperation::UpdateKeyValue => {},
                _ => {
                    return Err(ConfirmError::InvalidFinalizeOperation);
                },
            }
            i += 1;
        }
        if transaction.is_execute() {
            Ok(ConfirmedTransaction::AcceptedExecute(index, transaction, finalize_operations))
        } else {
            Err(ConfirmError::NotExecute)
        }
    }

    /// Returns a new rejected deploy transaction; the transaction must be a
    /// fee, else `NotFee`.
    pub fn rejected_deploy(index: u32, transaction: Transaction, rejected_deployment: Vec<u8>) -> (r:
        Result<Self, ConfirmError>)
        ensures
            r == if transaction.spec_is_fee() {
                Ok::<Self, ConfirmError>(
                    ConfirmedTransaction::RejectedDeploy(
                        index,
                        transaction,
                        Rejected(rejected_deployment),
                    ),
                )
            } else {
                Err::<Self, ConfirmError>(ConfirmError::NotFee)
            },
    {
        if transaction.is_fee() {
            Ok(ConfirmedTransaction::RejectedDeploy(index, transaction, Rejected(rejected_deployment)))
        } else {
            Err(ConfirmError::NotFee)
        }
    }

    /// Returns a new rejected execute transaction; the transaction must be a
    /// fee, else `NotFee`.
    pub fn rejected_execute(index: u32, transaction: Transaction, rejected_execution: Vec<u8>) -> (r:
        Result<Self, ConfirmError>)
        ensures
            r == if transaction.spec_is_fee() {
                Ok::<Self, ConfirmError>(
                    ConfirmedTransaction::RejectedExecute(
                        index,
                        transaction,
                        Rejected(rejected_execution),
                    ),
                )
            } else {
                Err::<Self, ConfirmError>(ConfirmError::NotFee)
            },
    {
        if transaction.is_fee() {
            Ok(
                ConfirmedTransaction::RejectedExecute(index, transaction, Rejected(rejected_execution)),
            )
        } else {
            Err(ConfirmError::NotFee)
        }
    }

    /// The confirmed transaction is accepted.
    pub open spec fn spec_is_accepted(&self) -> bool {
        self is AcceptedDeploy || self is AcceptedExecute
    }

    /// The index of the confirmed transaction.
    pub open spec fn spec_index(&self) -> u32 {
        match self {
            ConfirmedTransaction::AcceptedDeploy(index, _, _) => *index,
            ConfirmedTransaction::AcceptedExecute(index, _, _) => *index,
            ConfirmedTransaction::RejectedDeploy(index, _, _) => *index,
            ConfirmedTransaction::RejectedExecute(index, _, _) => *index,
        }
    }

    /// The transaction of the confirmed transaction.
    pub open spec fn spec_transaction(&self) -> Transaction {
        match self {
            ConfirmedTransaction::AcceptedDeploy(_, transaction, _) => *transaction,
            ConfirmedTransaction::AcceptedExecute(_, transaction, _) => *transaction,
            ConfirmedTransaction::RejectedDeploy(_, transaction, _) => *transaction,
            ConfirmedTransaction::RejectedExecute(_, transaction, _) => *transaction,
        }
    }

    /// The number of finalize operations of the confirmed transaction: those
    /// of an accepted one, none for a rejected one.
    pub open spec fn spec_num_finalize(&self) -> nat {
        match self {
            ConfirmedTransaction::AcceptedDeploy(_, _, finalize) => finalize@.len(),
            ConfirmedTransaction::AcceptedExecute(_, _, finalize) => finalize@.len(),
            _ => 0,
        }
    }

    /// Returns 'true' if the confirmed transaction is accepted.
    pub fn is_accepted(&self) -> (r: bool)
        ensures
            r == self.spec_is_accepted(),
    {
        match self {
            ConfirmedTransaction::AcceptedDeploy(..) | ConfirmedTransaction::AcceptedExecute(..) => true,
            ConfirmedTransaction::RejectedDeploy(..) | ConfirmedTransaction::RejectedExecute(..) => false,
        }
    }

    /// Returns 'true' if the confirmed transaction is rejected.
    pub fn is_rejected(&self) -> (r: bool)
        ensures
            r == !self.spec_is_accepted(),
    {
        !self.is_accepted()
    }

    /// Returns the confirmed transaction index.
    pub fn index(&self) -> (r: u32)
        ensures
            r == self.spec_index(),
    {
        match self {
            ConfirmedTransaction::AcceptedDeploy(index, _, _) => *index,
            ConfirmedTransaction::AcceptedExecute(index, _, _) => *index,
            ConfirmedTransaction::RejectedDeploy(index, _, _) => *index,
            ConfirmedTransaction::RejectedExecute(index, _, _) => *index,
        }
    }

    /// Returns the transaction.
    pub fn transaction(&self) -> (r: &Transaction)
        ensures
            *r == self.spec_transaction(),
    {
        match self {
            ConfirmedTransaction::AcceptedDeploy(_, transaction, _) => transaction,
            ConfirmedTransaction::AcceptedExecute(_, transaction, _) => transaction,
            ConfirmedTransaction::RejectedDeploy(_, transaction, _) => transaction,
            ConfirmedTransaction::RejectedExecute(_, transaction, _) => transaction,
        }
    }

    /// Returns the transaction.
    pub fn into_transaction(self) -> (r: Transaction)
        ensures
            r == self.spec_transaction(),
    {
        match self {
            ConfirmedTransaction::AcceptedDeploy(_, transaction, _) => transaction,
            ConfirmedTransaction::AcceptedExecute(_, transaction, _) => transaction,
            ConfirmedTransaction::RejectedDeploy(_, transaction, _) => transaction,
            ConfirmedTransaction::RejectedExecute(_, transaction, _) => transaction,
        }
    }

    /// Returns the number of finalize operations.
    pub fn num_finalize(&self) -> (r: usize)
        ensures
            r == self.spec_num_finalize(),
    {
        match self {
            ConfirmedTransaction::AcceptedDeploy(_, _, finalize)
            | ConfirmedTransaction::AcceptedExecute(_, _, finalize) => finalize.len(),
            ConfirmedTransaction::RejectedDeploy(..) | ConfirmedTransaction::RejectedExecute(..) => 0,
        }
    }
}

} // verus!
