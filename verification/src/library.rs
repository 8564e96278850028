//! The user's game library across launchers: which storefront a game came
//! from and what is known about its local install.

use vstd::prelude::*;

verus! {

/// Which storefront or service a game belongs to.
pub enum Launcher {
    Ubisoft,
    Twitch,
    Steam,
    Monthly,
    Trove,
}

/// One game of the library, with its install and media details.
pub struct Game {
    pub human_name: String,
    pub machine_name: String,
    pub installer: Option<String>,
    pub installed: bool,
    pub process: String,
    pub icon: String,
    pub screenshots: Option<Vec<String>>,
    pub trailer: Option<String>,
    pub launcher: Launcher,
}

/// The collection of games the user owns.
pub struct Library {
    pub games: Vec<Game>,
}

} // verus!
