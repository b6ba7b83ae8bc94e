//! The top-level menu's choices.
use vstd::prelude::*;

verus! {

/// The utilities the menu offers.
#[derive(Clone, Copy, Debug, PartialEq, Eq, Structural)]
pub enum Function {
    HelloWorld,
    PrependDate,
    FolderAccumulate,
}

/// One line of the top-level menu: the utility to run, or whether to quit.
#[derive(Clone, Copy, Debug, PartialEq, Eq, Structural)]
pub struct Args {
    pub function: Function,
    pub quit: bool,
}

} // verus!
