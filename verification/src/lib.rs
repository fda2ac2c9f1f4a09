use vstd::prelude::*;

pub mod text;
pub mod report;
pub mod linux;
pub mod windows;
pub mod port;
pub mod i18n;
pub mod ids;
pub mod state;
pub mod relay;

verus! {

} // verus!
