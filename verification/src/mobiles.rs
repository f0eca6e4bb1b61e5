//! Mobile templates, their spawned instances, and the spawn rules that
//! place them.

use vstd::prelude::*;

verus! {

/// A mobile template: immutable after world load.
#[derive(Debug)]
pub struct Mobile {
    pub id: u32,
    pub keywords: Vec<String>,
    pub room_description: String,
}

impl Clone for Mobile {
    fn clone(&self) -> (r: Self)
        ensures
            r.id == self.id,
            r.keywords@ == self.keywords@,
            r.room_description@ == self.room_description@,
    {
        Mobile {
            id: self.id,
            keywords: self.keywords.clone(),
            room_description: self.room_description.clone(),
        }
    }
}

/// One spawned mobile, standing in a room.
#[derive(Debug)]
pub struct MobileInstance {
    pub id: u32,
    pub template: Mobile,
    pub current_room: u32,
}

/// A spawn rule: place one instance of a template into a room.
#[derive(Clone, Copy, Debug)]
pub struct ResetCommand {
    pub mobile_id: u32,
    pub room_id: u32,
}

} // verus!
