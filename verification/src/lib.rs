#![verifier::loop_isolation(false)]

pub mod assemble;
pub mod boil;
pub mod chars;
pub mod docnav;
pub mod model;
pub mod extract;
pub mod natural;
pub mod order;
pub mod pivot;
pub mod resolve;
