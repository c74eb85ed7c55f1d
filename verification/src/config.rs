use vstd::prelude::*;

verus! {

/// What builds the project; it decides which update instructions a
/// failure message shows.
#[derive(Clone, Copy, Debug, PartialEq, Eq, Structural)]
pub enum BuildSystem {
    Buck,
    Buck2,
    Cargo,
}

impl BuildSystem {
    pub fn is_buck(&self) -> (r: bool)
        ensures
            r == (*self == BuildSystem::Buck || *self == BuildSystem::Buck2),
    {
        match self {
            BuildSystem::Buck => true,
            BuildSystem::Buck2 => true,
            BuildSystem::Cargo => false,
        }
    }
}

/// The run's settings. The orchestrator builds one from its environment
/// and passes it in; nothing here reads global state.
#[derive(Debug, Clone)]
pub struct Config {
    /// Configurable so a test suite can inspect assertion failures
    /// without panicking.
    pub assertions_will_panic: bool,
    /// Zero means disabled.
    pub terminal_width_override: usize,
    /// Whether mismatches rewrite snapshots instead of failing.
    pub update_mode: bool,
    /// Whether long diffs are rendered without collapsing.
    pub expand_mode: bool,
    /// What build system this project is being built with.
    pub build_system: BuildSystem,
    /// Whether colored output is forced on.
    pub force_enable_colors: bool,
}

impl Config {
    /// A configuration with the default panic behaviour and no terminal
    /// width override.
    pub fn new(
        update_mode: bool,
        expand_mode: bool,
        build_system: BuildSystem,
        force_enable_colors: bool,
    ) -> (r: Config)
        ensures
            r.assertions_will_panic == true,
            r.terminal_width_override == 0,
            r.update_mode == update_mode,
            r.expand_mode == expand_mode,
            r.build_system == build_system,
            r.force_enable_colors == force_enable_colors,
    {
        Config {
            assertions_will_panic: true,
            terminal_width_override: 0,
            update_mode,
            expand_mode,
            build_system,
            force_enable_colors,
        }
    }
}

/// Choose whether a failing assertion panics.
pub fn set_panic(config: &mut Config, v: bool)
    ensures
        *final(config) == (Config { assertions_will_panic: v, ..*old(config) }),
{
    config.assertions_will_panic = v;
}

/// Whether a failing assertion panics.
pub fn should_panic(config: &Config) -> (r: bool)
    ensures
        r == config.assertions_will_panic,
{
    config.assertions_will_panic
}

/// Pin the terminal width used for separator lines (zero disables the
/// override).
pub fn set_terminal_with_override(config: &mut Config, width: usize)
    ensures
        *final(config) == (Config { terminal_width_override: width, ..*old(config) }),
{
    config.terminal_width_override = width;
}

/// The pinned terminal width, or zero when none is set.
pub fn terminal_width_override(config: &Config) -> (r: usize)
    ensures
        r == config.terminal_width_override,
{
    config.terminal_width_override
}

/// How to re-run the suite so snapshots are created or updated, phrased
/// for the project's build system and highlighted.
pub fn update_instructions(config: &Config) -> String {
    match config.build_system {
        BuildSystem::Buck => crate::colors::paint_yellow(
            "buck test //path/to/your/buck/target/... -- --env K9_UPDATE_SNAPSHOTS=1",
        ),
        BuildSystem::Buck2 => crate::colors::paint_yellow(
            "buck2 test //path/to/your/buck/target/... -- --env K9_UPDATE_SNAPSHOTS=1",
        ),
        BuildSystem::Cargo => crate::colors::paint_yellow(
            "run with `K9_UPDATE_SNAPSHOTS=1` to update/create snapshots",
        ),
    }
}

/// `n` repetitions of a character.
pub open spec fn repeat_char(c: char, n: nat) -> Seq<char>
    decreases n,
{
    if n == 0 {
        Seq::empty()
    } else {
        repeat_char(c, (n - 1) as nat) + seq![c]
    }
}

pub proof fn lemma_repeat_char(c: char, n: nat)
    ensures
        repeat_char(c, n).len() == n,
        forall|i: int| 0 <= i < n ==> repeat_char(c, n)[i] == c,
    decreases n,
{
    if n > 0 {
        lemma_repeat_char(c, (n - 1) as nat);
    }
}

/// A horizontal line as wide as the terminal: the pinned width when one
/// is set, the queried terminal width otherwise, and a hundred
/// characters when that cannot be known.
pub fn terminal_separator_line(config: &Config) -> (r: String)
    ensures
        config.terminal_width_override != 0 ==> r@ == repeat_char(
            '\u{2501}',
            config.terminal_width_override as nat,
        ),
        forall|i: int| 0 <= i < r@.len() ==> r@[i] == '\u{2501}',
{
    let width_override = config.terminal_width_override;
    let width: usize = if width_override != 0 {
        width_override
    } else {
        match crate::colors::query_terminal_size() {
            Some((w, _)) => w as usize,
            None => 100,  // default width if we can't determine terminal width
        }
    };
    let mut v: Vec<char> = Vec::new();
    let mut i: usize = 0;
    while i < width
        invariant
            0 <= i <= width,
            v@ == repeat_char('\u{2501}', i as nat),
        decreases width - i,
    {
        v.push('\u{2501}');
        i = i + 1;
    }
    proof {
        lemma_repeat_char('\u{2501}', width as nat);
    }
    crate::utils::chars_to_string(&v)
}

} // verus!
