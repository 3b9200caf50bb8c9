//! Verified core of AutoCreamAPI: reading Steam's library and app manifests,
//! building the list of installed games, merging DLC lists from the Steam
//! Store API and SteamCMD, and driving the install of CreamAPI into a game,
//! down to the text of `cream_api.ini`.
pub mod creamapi;
pub mod dlc;
pub mod game_files;
pub mod number;
pub mod steam;
pub mod text;
