//! The order in which properties sort.

use vstd::hash_map::StringHashMap;
use vstd::prelude::*;

verus! {

/// The position of each ordered property.
pub struct PropertyIndex {
    positions: StringHashMap<u16>,
}

impl View for PropertyIndex {
    type V = Map<Seq<char>, u16>;

    closed spec fn view(&self) -> Map<Seq<char>, u16> {
        self.positions@
    }
}

/// The position of a property, where it has one.
pub open spec fn position_of(positions: Map<Seq<char>, u16>, name: Seq<char>) -> Option<u16> {
    if positions.contains_key(name) {
        Some(positions[name])
    } else {
        None
    }
}

impl PropertyIndex {
    /// An index in which no property has a position.
    pub fn new() -> (index: PropertyIndex)
        ensures
            index@ == Map::<Seq<char>, u16>::empty(),
    {
        PropertyIndex { positions: StringHashMap::new() }
    }

    /// Give the property `name` the position `position`.
    pub fn insert(&mut self, name: &str, position: u16)
        ensures
            final(self)@ == old(self)@.insert(name@, position),
    {
        self.positions.insert(name.to_owned(), position);
    }

    /// The position of the property `name`.
    pub fn get(&self, name: &str) -> (position: Option<u16>)
        ensures
            position == position_of(self@, name@),
    {
        match self.positions.get(name) {
            Some(position) => Some(*position),
            None => None,
        }
    }
}

} // verus!
