use vstd::prelude::*;

verus! {

/// The game's release stage and version number.
#[derive(Debug)]
pub struct GameVersion {
    pub state: String,
    pub major: i32,
    pub minor: i32,
    pub patch: i32,
}

impl Default for GameVersion {
    fn default() -> (r: Self)
        ensures
            r.state@ == "Pre-Alpha"@,
            r.major == 0,
            r.minor == 0,
            r.patch == 0,
    {
        GameVersion { state: String::from_str("Pre-Alpha"), major: 0, minor: 0, patch: 0 }
    }
}

} // verus!
