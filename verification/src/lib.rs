use vstd::prelude::*;

pub mod event;
pub mod rendering;
pub mod rpc;
pub mod session;
pub mod text;
pub mod ui;
pub mod util;

verus! {

} // verus!
