//! The symbol table: the address that each label of a program stands for.

use vstd::prelude::*;
use vstd::hash_map::StringHashMap;
use crate::error::AsmError;
use crate::types::Address;

verus! {

/// The labels of a program, each with its address. A label has one address:
/// declaring it again is refused.
pub struct SymbolTable {
    map: StringHashMap<Address>,
}

impl View for SymbolTable {
    type V = Map<Seq<char>, Address>;

    closed spec fn view(&self) -> Map<Seq<char>, Address> {
        self.map@
    }
}

impl SymbolTable {
    /// A table without labels.
    pub fn new() -> (table: Self)
        ensures
            table@ == Map::<Seq<char>, Address>::empty(),
    {
        SymbolTable { map: StringHashMap::new() }
    }

    /// Records that `name` stands for `address`, unless the table already
    /// holds `name`; then the table stays as it is.
    pub fn define(&mut self, name: String, address: Address) -> (r: Result<(), AsmError>)
        ensures
            match r {
                Ok(_) => !old(self)@.contains_key(name@) && final(self)@ == old(self)@.insert(
                    name@,
                    address,
                ),
                Err(e) => old(self)@.contains_key(name@) && final(self)@ == old(self)@ && e
                    == AsmError::DuplicateLabel,
            },
    {
        if self.map.contains_key(name.as_str()) {
            Err(AsmError::DuplicateLabel)
        } else {
            self.map.insert(name, address);
            Ok(())
        }
    }

    /// The address that `name` stands for, if the table holds it.
    pub fn address_of(&self, name: &str) -> (r: Option<Address>)
        ensures
            r == if self@.contains_key(name@) {
                Some(self@[name@])
            } else {
                None::<Address>
            },
    {
        match self.map.get(name) {
            Some(address) => Some(*address),
            None => None,
        }
    }

    /// Whether the table holds `name`.
    pub fn contains(&self, name: &str) -> (b: bool)
        ensures
            b == self@.contains_key(name@),
    {
        self.map.contains_key(name)
    }
}

} // verus!
