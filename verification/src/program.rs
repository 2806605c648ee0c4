//! The finalize store: the maps that hold the state of program mappings,
//! opened together and treated by higher layers as one transactional unit.
//!
//! Keys and values that the map layer does not interpret (program
//! identifiers, mapping identifiers, field elements, values) are held as the
//! byte strings that their own serialization produced.

use crate::id::{MapID, ProgramMap};
use crate::map::DataMap;
use crate::model::MapState;
use crate::plaintext::Plaintext;
use crate::prefix::{lemma_prefix_injective, spec_prefix};
use vstd::prelude::*;

verus! {

/// The finalize store.
pub struct FinalizeDB {
    /// From a program identifier to the identifiers of its mappings.
    pub program_id_map: DataMap<Vec<u8>, Vec<u8>>,
    /// From a program identifier and a mapping name to the mapping's
    /// identifier.
    pub mapping_id_map: DataMap<Vec<u8>, Vec<u8>>,
    /// From a mapping identifier to its key identifiers and their value
    /// identifiers.
    pub key_value_id_map: DataMap<Vec<u8>, Vec<u8>>,
    /// From a key identifier to the key.
    pub key_map: DataMap<Vec<u8>, Plaintext>,
    /// From a key identifier to the value.
    pub value_map: DataMap<Vec<u8>, Vec<u8>>,
    /// The optional development-instance tag.
    pub dev: Option<u16>,
}

/// The state of a map of the finalize store when it has just been opened.
pub open spec fn opened_program_map(network_id: u16, dev: Option<u16>, table: ProgramMap) -> MapState {
    MapState::opened(spec_prefix(network_id, dev, MapID::Program(table)))
}

impl FinalizeDB {
    /// Every map of the store keeps its invariant.
    pub open spec fn wf(&self) -> bool {
        &&& self.program_id_map.wf()
        &&& self.mapping_id_map.wf()
        &&& self.key_value_id_map.wf()
        &&& self.key_map.wf()
        &&& self.value_map.wf()
    }

    /// The prefixes of the five maps, in the order of the fields.
    pub open spec fn prefixes(&self) -> Seq<Seq<u8>> {
        seq![
            self.program_id_map@.prefix,
            self.mapping_id_map@.prefix,
            self.key_value_id_map@.prefix,
            self.key_map@.prefix,
            self.value_map@.prefix,
        ]
    }

    /// Opens the finalize store of network `network_id`, with the
    /// development tag `dev`: each of its maps is opened, idle, under its own
    /// table identifier, so that no two of them share a prefix.
    pub fn open(network_id: u16, dev: Option<u16>) -> (db: Self)
        ensures
            db.wf(),
            db.dev == dev,
            db.program_id_map@ == opened_program_map(network_id, dev, ProgramMap::ProgramID),
            db.mapping_id_map@ == opened_program_map(network_id, dev, ProgramMap::MappingID),
            db.key_value_id_map@ == opened_program_map(network_id, dev, ProgramMap::KeyValueID),
            db.key_map@ == opened_program_map(network_id, dev, ProgramMap::Key),
            db.value_map@ == opened_program_map(network_id, dev, ProgramMap::Value),
            forall|i: int, j: int|
                0 <= i < 5 && 0 <= j < 5 && i != j ==> db.prefixes()[i] != db.prefixes()[j],
    {
        let db = FinalizeDB {
            program_id_map: DataMap::open(network_id, dev, MapID::Program(ProgramMap::ProgramID)),
            mapping_id_map: DataMap::open(network_id, dev, MapID::Program(ProgramMap::MappingID)),
            key_value_id_map: DataMap::open(
                network_id,
                dev,
                MapID::Program(ProgramMap::KeyValueID),
            ),
            key_map: DataMap::open(network_id, dev, MapID::Program(ProgramMap::Key)),
            value_map: DataMap::open(network_id, dev, MapID::Program(ProgramMap::Value)),
            dev,
        };
        proof {
            let tables = seq![
                ProgramMap::ProgramID,
                ProgramMap::MappingID,
                ProgramMap::KeyValueID,
                ProgramMap::Key,
                ProgramMap::Value,
            ];
            assert forall|i: int, j: int| 0 <= i < 5 && 0 <= j < 5 && i != j implies db.prefixes()[i]
                != db.prefixes()[j] by {
                assert(db.prefixes()[i] == spec_prefix(network_id, dev, MapID::Program(tables[i])));
                assert(db.prefixes()[j] == spec_prefix(network_id, dev, MapID::Program(tables[j])));
                if db.prefixes()[i] == db.prefixes()[j] {
                    lemma_prefix_injective(
                        network_id,
                        dev,
                        MapID::Program(tables[i]),
                        network_id,
                        dev,
                        MapID::Program(tables[j]),
                    );
                }
            }
        }
        db
    }

    /// Returns the program ID map.
    pub fn program_id_map(&self) -> (map: &DataMap<Vec<u8>, Vec<u8>>)
        ensures
            *map == self.program_id_map,
    {
        &self.program_id_map
    }

    /// Returns the mapping ID map.
    pub fn mapping_id_map(&self) -> (map: &DataMap<Vec<u8>, Vec<u8>>)
        ensures
            *map == self.mapping_id_map,
    {
        &self.mapping_id_map
    }

    /// Returns the key-value ID map.
    pub fn key_value_id_map(&self) -> (map: &DataMap<Vec<u8>, Vec<u8>>)
        ensures
            *map == self.key_value_id_map,
    {
        &self.key_value_id_map
    }

    /// Returns the key map.
    pub fn key_map(&self) -> (map: &DataMap<Vec<u8>, Plaintext>)
        ensures
            *map == self.key_map,
    {
        &self.key_map
    }

    /// Returns the value map.
    pub fn value_map(&self) -> (map: &DataMap<Vec<u8>, Vec<u8>>)
        ensures
            *map == self.value_map,
    {
        &self.value_map
    }

    /// Returns the optional development-instance tag.
    pub fn dev(&self) -> (dev: Option<u16>)
        ensures
            dev == self.dev,
    {
        self.dev
    }
}

} // verus!
