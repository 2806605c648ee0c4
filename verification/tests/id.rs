use atomic_store::id::{
    BlockMap, DeploymentMap, ExecutionMap, FeeMap, MapID, ProgramMap, TestMap, TransactionMap,
    TransitionInputMap, TransitionMap, TransitionOutputMap, NUM_MAP_IDS,
};
use atomic_store::prefix::{key_prefix, prefix_len};

fn all_map_ids() -> Vec<MapID> {
    vec![
        MapID::Block(BlockMap::StateRoot),
        MapID::Block(BlockMap::ReverseStateRoot),
        MapID::Block(BlockMap::ID),
        MapID::Block(BlockMap::ReverseID),
        MapID::Block(BlockMap::Header),
        MapID::Block(BlockMap::Transactions),
        MapID::Block(BlockMap::ConfirmedTransactions),
        MapID::Block(BlockMap::CoinbaseSolution),
        MapID::Block(BlockMap::CoinbasePuzzleCommitment),
        MapID::Block(BlockMap::Signature),
        MapID::Deployment(DeploymentMap::ID),
        MapID::Deployment(DeploymentMap::Edition),
        MapID::Deployment(DeploymentMap::ReverseID),
        MapID::Deployment(DeploymentMap::Owner),
        MapID::Deployment(DeploymentMap::Program),
        MapID::Deployment(DeploymentMap::VerifyingKey),
        MapID::Deployment(DeploymentMap::Certificate),
        MapID::Execution(ExecutionMap::ID),
        MapID::Execution(ExecutionMap::ReverseID),
        MapID::Execution(ExecutionMap::Inclusion),
        MapID::Fee(FeeMap::Fee),
        MapID::Fee(FeeMap::ReverseFee),
        MapID::TransitionInput(TransitionInputMap::ID),
        MapID::TransitionInput(TransitionInputMap::ReverseID),
        MapID::TransitionInput(TransitionInputMap::Constant),
        MapID::TransitionInput(TransitionInputMap::Public),
        MapID::TransitionInput(TransitionInputMap::Private),
        MapID::TransitionInput(TransitionInputMap::Record),
        MapID::TransitionInput(TransitionInputMap::RecordTag),
        MapID::TransitionInput(TransitionInputMap::ExternalRecord),
        MapID::TransitionOutput(TransitionOutputMap::ID),
        MapID::TransitionOutput(TransitionOutputMap::ReverseID),
        MapID::TransitionOutput(TransitionOutputMap::Constant),
        MapID::TransitionOutput(TransitionOutputMap::Public),
        MapID::TransitionOutput(TransitionOutputMap::Private),
        MapID::TransitionOutput(TransitionOutputMap::Record),
        MapID::TransitionOutput(TransitionOutputMap::RecordNonce),
        MapID::TransitionOutput(TransitionOutputMap::ExternalRecord),
        MapID::Transaction(TransactionMap::ID),
        MapID::Transition(TransitionMap::Locator),
        MapID::Transition(TransitionMap::Finalize),
        MapID::Transition(TransitionMap::Proof),
        MapID::Transition(TransitionMap::TPK),
        MapID::Transition(TransitionMap::ReverseTPK),
        MapID::Transition(TransitionMap::TCM),
        MapID::Transition(TransitionMap::ReverseTCM),
        MapID::Program(ProgramMap::ProgramID),
        MapID::Program(ProgramMap::MappingID),
        MapID::Program(ProgramMap::KeyValueID),
        MapID::Program(ProgramMap::Key),
        MapID::Program(ProgramMap::Value),
        MapID::Test(TestMap::Test),
    ]
}

#[test]
fn test_identifiers_follow_the_flat_enumeration() {
    // The identifiers are stable: they count up in the order of the tables.
    for (expected, id) in all_map_ids().into_iter().enumerate() {
        assert_eq!(u16::from(id), expected as u16);
        assert_eq!(id.id(), expected as u16);
    }
    assert_eq!(all_map_ids().len(), NUM_MAP_IDS as usize);
}

#[test]
fn test_first_identifier_of_each_group() {
    assert_eq!(u16::from(MapID::Block(BlockMap::StateRoot)), 0);
    assert_eq!(u16::from(MapID::Deployment(DeploymentMap::ID)), 10);
    assert_eq!(u16::from(MapID::Execution(ExecutionMap::ID)), 17);
    assert_eq!(u16::from(MapID::Fee(FeeMap::Fee)), 20);
    assert_eq!(u16::from(MapID::TransitionInput(TransitionInputMap::ID)), 22);
    assert_eq!(u16::from(MapID::TransitionOutput(TransitionOutputMap::ID)), 30);
    assert_eq!(u16::from(MapID::Transaction(TransactionMap::ID)), 38);
    assert_eq!(u16::from(MapID::Transition(TransitionMap::Locator)), 39);
    assert_eq!(u16::from(MapID::Program(ProgramMap::ProgramID)), 46);
    assert_eq!(u16::from(MapID::Program(ProgramMap::Value)), 50);
    assert_eq!(u16::from(MapID::Test(TestMap::Test)), 51);
}

#[test]
fn test_group_identifiers_agree_with_map_identifiers() {
    assert_eq!(BlockMap::Signature.id(), 9);
    assert_eq!(DeploymentMap::Certificate.id(), 16);
    assert_eq!(ExecutionMap::Inclusion.id(), 19);
    assert_eq!(FeeMap::ReverseFee.id(), 21);
    assert_eq!(TransitionInputMap::ExternalRecord.id(), 29);
    assert_eq!(TransitionOutputMap::ExternalRecord.id(), 37);
    assert_eq!(TransactionMap::ID.id(), 38);
    assert_eq!(TransitionMap::ReverseTCM.id(), 45);
    assert_eq!(ProgramMap::Key.id(), 49);
    assert_eq!(TestMap::Test.id(), 51);
}

#[test]
fn test_identifiers_are_unique() {
    let ids: Vec<u16> = all_map_ids().into_iter().map(u16::from).collect();
    for i in 0..ids.len() {
        for j in 0..i {
            assert_ne!(ids[i], ids[j]);
        }
    }
}

#[test]
fn test_prefix_layout() {
    // Network, then table.
    assert_eq!(key_prefix(3, None, MapID::Program(ProgramMap::Value)), vec![3, 0, 50, 0]);
    // Network, development tag, then table.
    assert_eq!(
        key_prefix(3, Some(0x0102), MapID::Program(ProgramMap::Value)),
        vec![3, 0, 2, 1, 50, 0]
    );
    assert_eq!(key_prefix(0x1234, Some(0), MapID::Block(BlockMap::StateRoot)), vec![
        0x34, 0x12, 0, 0, 0, 0
    ]);
}

#[test]
fn test_prefix_len() {
    assert_eq!(prefix_len(None), 4);
    assert_eq!(prefix_len(Some(0)), 6);
    assert_eq!(prefix_len(Some(u16::MAX)), 6);
    assert_eq!(key_prefix(3, None, MapID::Test(TestMap::Test)).len(), prefix_len(None));
    assert_eq!(key_prefix(3, Some(9), MapID::Test(TestMap::Test)).len(), prefix_len(Some(9)));
}

#[test]
fn test_prefixes_of_different_tables_differ() {
    for dev in [None, Some(0u16), Some(7)] {
        let prefixes: Vec<Vec<u8>> =
            all_map_ids().into_iter().map(|id| key_prefix(3, dev, id)).collect();
        for i in 0..prefixes.len() {
            for j in 0..i {
                assert_ne!(prefixes[i], prefixes[j]);
                assert_eq!(prefixes[i].len(), prefixes[j].len());
            }
        }
    }
}
