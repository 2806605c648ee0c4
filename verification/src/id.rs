//! The registry of map identifiers.
//!
//! Every logical table has one 16-bit identifier, drawn from a single flat
//! enumeration. The identifier is the last component of a map's key prefix,
//! so the numbers are part of the on-disk format: a new table is appended at
//! the end, and no existing number ever changes.

use vstd::prelude::*;

verus! {

/// The number of identifiers handed out so far. Every identifier is below it.
pub const NUM_MAP_IDS: u16 = 52;

/// The identifier of a logical table: a group, and a table within the group.
#[derive(Clone, Copy, Debug, PartialEq, Eq, Hash, Structural)]
pub enum MapID {
    Block(BlockMap),
    Deployment(DeploymentMap),
    Execution(ExecutionMap),
    Fee(FeeMap),
    TransitionInput(TransitionInputMap),
    TransitionOutput(TransitionOutputMap),
    Transaction(TransactionMap),
    Transition(TransitionMap),
    Program(ProgramMap),
    Test(TestMap),
}

/// Tables of the block store.
#[derive(Clone, Copy, Debug, PartialEq, Eq, Hash, Structural)]
pub enum BlockMap {
    StateRoot,
    ReverseStateRoot,
    ID,
    ReverseID,
    Header,
    Transactions,
    ConfirmedTransactions,
    CoinbaseSolution,
    CoinbasePuzzleCommitment,
    Signature,
}

impl BlockMap {
    /// The table's place in the flat enumeration.
    pub open spec fn spec_id(self) -> u16 {
        match self {
            BlockMap::StateRoot => 0,
            BlockMap::ReverseStateRoot => 1,
            BlockMap::ID => 2,
            BlockMap::ReverseID => 3,
            BlockMap::Header => 4,
            BlockMap::Transactions => 5,
            BlockMap::ConfirmedTransactions => 6,
            BlockMap::CoinbaseSolution => 7,
            BlockMap::CoinbasePuzzleCommitment => 8,
            BlockMap::Signature => 9,
        }
    }

    /// Returns the table's identifier.
    pub fn id(self) -> (r: u16)
        ensures
            r == self.spec_id(),
    {
        match self {
            BlockMap::StateRoot => 0,
            BlockMap::ReverseStateRoot => 1,
            BlockMap::ID => 2,
            BlockMap::ReverseID => 3,
            BlockMap::Header => 4,
            BlockMap::Transactions => 5,
            BlockMap::ConfirmedTransactions => 6,
            BlockMap::CoinbaseSolution => 7,
            BlockMap::CoinbasePuzzleCommitment => 8,
            BlockMap::Signature => 9,
        }
    }
}

/// Tables of the deployment store.
#[derive(Clone, Copy, Debug, PartialEq, Eq, Hash, Structural)]
pub enum DeploymentMap {
    ID,
    Edition,
    ReverseID,
    Owner,
    Program,
    VerifyingKey,
    Certificate,
}

impl DeploymentMap {
    /// The table's place in the flat enumeration.
    pub open spec fn spec_id(self) -> u16 {
        match self {
            DeploymentMap::ID => 10,
            DeploymentMap::Edition => 11,
            DeploymentMap::ReverseID => 12,
            DeploymentMap::Owner => 13,
            DeploymentMap::Program => 14,
            DeploymentMap::VerifyingKey => 15,
            DeploymentMap::Certificate => 16,
        }
    }

    /// Returns the table's identifier.
    pub fn id(self) -> (r: u16)
        ensures
            r == self.spec_id(),
    {
        match self {
            DeploymentMap::ID => 10,
            DeploymentMap::Edition => 11,
            DeploymentMap::ReverseID => 12,
            DeploymentMap::Owner => 13,
            DeploymentMap::Program => 14,
            DeploymentMap::VerifyingKey => 15,
            DeploymentMap::Certificate => 16,
        }
    }
}

/// Tables of the execution store.
#[derive(Clone, Copy, Debug, PartialEq, Eq, Hash, Structural)]
pub enum ExecutionMap {
    ID,
    ReverseID,
    Inclusion,
}

impl ExecutionMap {
    /// The table's place in the flat enumeration.
    pub open spec fn spec_id(self) -> u16 {
        match self {
            ExecutionMap::ID => 17,
            ExecutionMap::ReverseID => 18,
            ExecutionMap::Inclusion => 19,
        }
    }

    /// Returns the table's identifier.
    pub fn id(self) -> (r: u16)
        ensures
            r == self.spec_id(),
    {
        match self {
            ExecutionMap::ID => 17,
            ExecutionMap::ReverseID => 18,
            ExecutionMap::Inclusion => 19,
        }
    }
}

/// Tables of the fee store.
#[derive(Clone, Copy, Debug, PartialEq, Eq, Hash, Structural)]
pub enum FeeMap {
    Fee,
    ReverseFee,
}

impl FeeMap {
    /// The table's place in the flat enumeration.
    pub open spec fn spec_id(self) -> u16 {
        match self {
            FeeMap::Fee => 20,
            FeeMap::ReverseFee => 21,
        }
    }

    /// Returns the table's identifier.
    pub fn id(self) -> (r: u16)
        ensures
            r == self.spec_id(),
    {
        match self {
            FeeMap::Fee => 20,
            FeeMap::ReverseFee => 21,
        }
    }
}

/// Tables of the transition input store.
#[derive(Clone, Copy, Debug, PartialEq, Eq, Hash, Structural)]
pub enum TransitionInputMap {
    ID,
    ReverseID,
    Constant,
    Public,
    Private,
    Record,
    RecordTag,
    ExternalRecord,
}

impl TransitionInputMap {
    /// The table's place in the flat enumeration.
    pub open spec fn spec_id(self) -> u16 {
        match self {
            TransitionInputMap::ID => 22,
            TransitionInputMap::ReverseID => 23,
            TransitionInputMap::Constant => 24,
            TransitionInputMap::Public => 25,
            TransitionInputMap::Private => 26,
            TransitionInputMap::Record => 27,
            TransitionInputMap::RecordTag => 28,
            TransitionInputMap::ExternalRecord => 29,
        }
    }

    /// Returns the table's identifier.
    pub fn id(self) -> (r: u16)
        ensures
            r == self.spec_id(),
    {
        match self {
            TransitionInputMap::ID => 22,
            TransitionInputMap::ReverseID => 23,
            TransitionInputMap::Constant => 24,
            TransitionInputMap::Public => 25,
            TransitionInputMap::Private => 26,
            TransitionInputMap::Record => 27,
            TransitionInputMap::RecordTag => 28,
            TransitionInputMap::ExternalRecord => 29,
        }
    }
}

/// Tables of the transition output store.
#[derive(Clone, Copy, Debug, PartialEq, Eq, Hash, Structural)]
pub enum TransitionOutputMap {
    ID,
    ReverseID,
    Constant,
    Public,
    Private,
    Record,
    RecordNonce,
    ExternalRecord,
}

impl TransitionOutputMap {
    /// The table's place in the flat enumeration.
    pub open spec fn spec_id(self) -> u16 {
        match self {
            TransitionOutputMap::ID => 30,
            TransitionOutputMap::ReverseID => 31,
            TransitionOutputMap::Constant => 32,
            TransitionOutputMap::Public => 33,
            TransitionOutputMap::Private => 34,
            TransitionOutputMap::Record => 35,
            TransitionOutputMap::RecordNonce => 36,
            TransitionOutputMap::ExternalRecord => 37,
        }
    }

    /// Returns the table's identifier.
    pub fn id(self) -> (r: u16)
        ensures
            r == self.spec_id(),
    {
        match self {
            TransitionOutputMap::ID => 30,
            TransitionOutputMap::ReverseID => 31,
            TransitionOutputMap::Constant => 32,
            TransitionOutputMap::Public => 33,
            TransitionOutputMap::Private => 34,
            TransitionOutputMap::Record => 35,
            TransitionOutputMap::RecordNonce => 36,
            TransitionOutputMap::ExternalRecord => 37,
        }
    }
}

/// Tables of the transaction store.
#[derive(Clone, Copy, Debug, PartialEq, Eq, Hash, Structural)]
pub enum TransactionMap {
    ID,
}

impl TransactionMap {
    /// The table's place in the flat enumeration.
    pub open spec fn spec_id(self) -> u16 {
        match self {
            TransactionMap::ID => 38,
        }
    }

    /// Returns the table's identifier.
    pub fn id(self) -> (r: u16)
        ensures
            r == self.spec_id(),
    {
        match self {
            TransactionMap::ID => 38,
        }
    }
}

/// Tables of the transition store.
#[derive(Clone, Copy, Debug, PartialEq, Eq, Hash, Structural)]
pub enum TransitionMap {
    Locator,
    Finalize,
    Proof,
    TPK,
    ReverseTPK,
    TCM,
    ReverseTCM,
}

impl TransitionMap {
    /// The table's place in the flat enumeration.
    pub open spec fn spec_id(self) -> u16 {
        match self {
            TransitionMap::Locator => 39,
            TransitionMap::Finalize => 40,
            TransitionMap::Proof => 41,
            TransitionMap::TPK => 42,
            TransitionMap::ReverseTPK => 43,
            TransitionMap::TCM => 44,
            TransitionMap::ReverseTCM => 45,
        }
    }

    /// Returns the table's identifier.
    pub fn id(self) -> (r: u16)
        ensures
            r == self.spec_id(),
    {
        match self {
            TransitionMap::Locator => 39,
            TransitionMap::Finalize => 40,
            TransitionMap::Proof => 41,
            TransitionMap::TPK => 42,
            TransitionMap::ReverseTPK => 43,
            TransitionMap::TCM => 44,
            TransitionMap::ReverseTCM => 45,
        }
    }
}

/// Tables of the program (finalize) store.
#[derive(Clone, Copy, Debug, PartialEq, Eq, Hash, Structural)]
pub enum ProgramMap {
    ProgramID,
    MappingID,
    KeyValueID,
    Key,
    Value,
}

impl ProgramMap {
    /// The table's place in the flat enumeration.
    pub open spec fn spec_id(self) -> u16 {
        match self {
            ProgramMap::ProgramID => 46,
            ProgramMap::MappingID => 47,
            ProgramMap::KeyValueID => 48,
            ProgramMap::Key => 49,
            ProgramMap::Value => 50,
        }
    }

    /// Returns the table's identifier.
    pub fn id(self) -> (r: u16)
        ensures
            r == self.spec_id(),
    {
        match self {
            ProgramMap::ProgramID => 46,
            ProgramMap::MappingID => 47,
            ProgramMap::KeyValueID => 48,
            ProgramMap::Key => 49,
            ProgramMap::Value => 50,
        }
    }
}

/// A table reserved for exercising the map layer.
#[derive(Clone, Copy, Debug, PartialEq, Eq, Hash, Structural)]
pub enum TestMap {
    Test,
}

impl TestMap {
    /// The table's place in the flat enumeration.
    pub open spec fn spec_id(self) -> u16 {
        match self {
            TestMap::Test => 51,
        }
    }

    /// Returns the table's identifier.
    pub fn id(self) -> (r: u16)
        ensures
            r == self.spec_id(),
    {
        match self {
            TestMap::Test => 51,
        }
    }
}

impl MapID {
    /// The identifier of the table, as it is written into key prefixes.
    pub open spec fn spec_id(self) -> u16 {
        match self {
            MapID::Block(t) => t.spec_id(),
            MapID::Deployment(t) => t.spec_id(),
            MapID::Execution(t) => t.spec_id(),
            MapID::Fee(t) => t.spec_id(),
            MapID::TransitionInput(t) => t.spec_id(),
            MapID::TransitionOutput(t) => t.spec_id(),
            MapID::Transaction(t) => t.spec_id(),
            MapID::Transition(t) => t.spec_id(),
            MapID::Program(t) => t.spec_id(),
            MapID::Test(t) => t.spec_id(),
        }
    }

    /// Returns the identifier of the table.
    pub fn id(self) -> (r: u16)
        ensures
            r == self.spec_id(),
            r < NUM_MAP_IDS,
    {
        match self {
            MapID::Block(t) => t.id(),
            MapID::Deployment(t) => t.id(),
            MapID::Execution(t) => t.id(),
            MapID::Fee(t) => t.id(),
            MapID::TransitionInput(t) => t.id(),
            MapID::TransitionOutput(t) => t.id(),
            MapID::Transaction(t) => t.id(),
            MapID::Transition(t) => t.id(),
            MapID::Program(t) => t.id(),
            MapID::Test(t) => t.id(),
        }
    }

    /// Two tables with the same identifier are the same table.
    pub proof fn lemma_id_injective(a: MapID, b: MapID)
        requires
            a.spec_id() == b.spec_id(),
        ensures
            a == b,
    {
    }
}

impl From<MapID> for u16 {
    fn from(id: MapID) -> (r: u16) {
        id.id()
    }
}

impl vstd::std_specs::convert::FromSpecImpl<MapID> for u16 {
    open spec fn obeys_from_spec() -> bool {
        true
    }

    open spec fn from_spec(id: MapID) -> u16 {
        id.spec_id()
    }
}

} // verus!
