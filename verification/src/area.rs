//! An area: one loaded batch of rooms, mobile templates and spawn rules,
//! produced by external loading code and handed to the world whole.

use vstd::prelude::*;

use crate::mobiles::{Mobile, ResetCommand};
use crate::room::Room;

verus! {

pub struct Area {
    pub rooms: Vec<Room>,
    pub mobiles: Vec<Mobile>,
    pub resets: Vec<ResetCommand>,
}

} // verus!
