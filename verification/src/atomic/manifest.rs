use vstd::prelude::*;

use crate::text::string_of;

verus! {

pub const ATOMIC_GAME_FORMAT: &'static str = "atomicflix-game";

pub const ATOMIC_GAME_FORMAT_VERSION: u32 = 1;

pub const ATOMIC_GAME_RUNTIME_VERSION: u32 = 1;

/// The manifest that announces an atomic game.
#[derive(Debug, Clone, PartialEq)]
pub struct AtomicGameManifest {
    pub format: String,
    pub format_version: u32,
    pub runtime_version: u32,
    pub game_id: String,
    pub revision: u64,
    pub title: String,
    pub program_url: String,
    pub poster_url: Option<String>,
}

impl Default for AtomicGameManifest {
    fn default() -> (m: Self)
        ensures
            m.format@ == ATOMIC_GAME_FORMAT@,
            m.format_version == ATOMIC_GAME_FORMAT_VERSION,
            m.runtime_version == ATOMIC_GAME_RUNTIME_VERSION,
            m.game_id@ == Seq::<char>::empty(),
            m.revision == 1,
            m.title@ == Seq::<char>::empty(),
            m.program_url@ == Seq::<char>::empty(),
            m.poster_url is None,
    {
        AtomicGameManifest {
            format: string_of(ATOMIC_GAME_FORMAT),
            format_version: ATOMIC_GAME_FORMAT_VERSION,
            runtime_version: ATOMIC_GAME_RUNTIME_VERSION,
            game_id: String::new(),
            revision: 1,
            title: String::new(),
            program_url: String::new(),
            poster_url: None,
        }
    }
}

} // verus!
