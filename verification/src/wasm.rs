//! The game modules that a server can run.
use vstd::prelude::*;

verus! {

/// The directory of the game modules.
pub const STATE_MODS_PATH: &'static str = "mods/state";

/// The ticks of a second that a module has unless it says otherwise.
pub const DEFAULT_TICKS: u64 = 50;

/// The module that a server is to run.
#[derive(Debug, Clone, PartialEq, Eq)]
pub enum GameStateMod {
    Native,
    Ddnet,
    Wasm { file: Vec<u8> },
}

/// What runs a module.
#[derive(Debug, Clone, PartialEq, Eq)]
pub enum ModuleRunner<B> {
    /// The game that is built in.
    Native,
    /// The WebAssembly runtime, with the given code.
    Wasm { code: B },
}

impl View for ModuleRunner<Vec<u8>> {
    type V = ModuleRunner<Seq<u8>>;

    open spec fn view(&self) -> ModuleRunner<Seq<u8>> {
        match self {
            ModuleRunner::Native => ModuleRunner::Native,
            ModuleRunner::Wasm { code } => ModuleRunner::Wasm { code: code@ },
        }
    }
}

/// What a module says of itself, as far as it is looked at.
#[derive(Debug, Clone, PartialEq, Eq)]
pub struct StaticInfo<T> {
    pub ticks_in_a_second: u64,
    pub mod_name: T,
    pub version: T,
}

impl View for StaticInfo<String> {
    type V = StaticInfo<Seq<char>>;

    open spec fn view(&self) -> StaticInfo<Seq<char>> {
        StaticInfo {
            ticks_in_a_second: self.ticks_in_a_second,
            mod_name: self.mod_name@,
            version: self.version@,
        }
    }
}

/// Chooses what runs a module. The game that is built in runs its own rules
/// and those of DDNet.
pub fn runner(game_mod: GameStateMod) -> (r: ModuleRunner<Vec<u8>>)
    ensures
        r@ == match game_mod {
            GameStateMod::Native | GameStateMod::Ddnet => ModuleRunner::Native,
            GameStateMod::Wasm { file } => ModuleRunner::Wasm { code: file@ },
        },
{
    match game_mod {
        GameStateMod::Native | GameStateMod::Ddnet => ModuleRunner::Native,
        GameStateMod::Wasm { file } => ModuleRunner::Wasm { code: file },
    }
}

/// What is known of a WebAssembly module before it says anything.
pub fn unknown_module() -> (r: StaticInfo<String>)
    ensures
        r@ == (StaticInfo {
            ticks_in_a_second: DEFAULT_TICKS,
            mod_name: "unknown"@,
            version: ""@,
        }),
{
    StaticInfo {
        ticks_in_a_second: DEFAULT_TICKS,
        mod_name: "unknown".to_owned(),
        version: "".to_owned(),
    }
}

/// A module that was loaded.
#[derive(Debug, Clone, PartialEq, Eq)]
pub struct GameStateWasmManager {
    pub info: StaticInfo<String>,
    pub predicted_game_monotonic_tick: u64,
}

impl GameStateWasmManager {
    /// A tick takes some time.
    pub open spec fn valid(self) -> bool {
        self.info.ticks_in_a_second > 0
    }

    /// A module that was loaded and says `info` of itself.
    pub fn new(info: StaticInfo<String>) -> (r: Self)
        requires
            info.ticks_in_a_second > 0,
        ensures
            r.info == info,
            r.predicted_game_monotonic_tick == 0,
            r.valid(),
    {
        GameStateWasmManager { info, predicted_game_monotonic_tick: 0 }
    }

    /// The ticks of a second. Never zero.
    pub fn game_tick_speed(&self) -> (r: u64)
        requires
            self.valid(),
        ensures
            r == self.info.ticks_in_a_second,
            r > 0,
    {
        self.info.ticks_in_a_second
    }
}

/// Only a WebAssembly module is run by the runtime, with its own code.
pub proof fn modules_run_their_own_code(game_mod: GameStateMod, r: ModuleRunner<Vec<u8>>)
    requires
        call_ensures(runner, (game_mod,), r),
    ensures
        r is Native <==> !(game_mod is Wasm),
        game_mod matches GameStateMod::Wasm { file } ==> r matches ModuleRunner::Wasm { code }
            && code@ == file@,
{
}

/// A loaded module starts at tick zero and runs at the speed that it told. A
/// module that told nothing yet runs at 50 ticks a second.
pub proof fn modules_run_at_their_own_speed(
    info: StaticInfo<String>,
    m: GameStateWasmManager,
    speed: u64,
    unknown: StaticInfo<String>,
)
    requires
        call_ensures(GameStateWasmManager::new, (info,), m),
        call_ensures(GameStateWasmManager::game_tick_speed, (&m,), speed),
        call_ensures(unknown_module, (), unknown),
    ensures
        speed == info.ticks_in_a_second,
        m.info == info,
        m.predicted_game_monotonic_tick == 0,
        unknown.ticks_in_a_second == 50,
        unknown.version@.len() == 0,
        unknown.mod_name@ == seq!['u', 'n', 'k', 'n', 'o', 'w', 'n'],
{
    reveal_strlit("");
    reveal_strlit("unknown");
    assert("unknown"@ =~= seq!['u', 'n', 'k', 'n', 'o', 'w', 'n']);
}

} // verus!
