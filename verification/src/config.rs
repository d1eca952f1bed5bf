//! `.anvil.toml`, the optional per-project config that points Anvil's database and model
//! clients at specific addresses, and the decisions `anvil init` makes while finding those
//! addresses: trust an explicit one, else probe the default, else start the service with
//! `docker compose` and wait for it. Probing, running docker and sleeping are the caller's
//! part; [`ServiceResolution::step`] says what to do next after each of them.

use vstd::prelude::*;
use vstd::string::*;

verus! {

/// The config file's name, looked for in the current directory only.
pub const CONFIG_FILE_NAME: &'static str = ".anvil.toml";

/// Where `sqld` listens unless configured otherwise.
pub const DEFAULT_SQLD_URL: &'static str = "http://localhost:5100";

/// Where Ollama listens unless configured otherwise.
pub const DEFAULT_OLLAMA_URL: &'static str = "http://localhost:11434";

/// How many times a freshly started service is probed before giving up on it.
pub const STARTUP_PROBES: u8 = 10;

/// Where one service lives.
pub struct ServiceConfig {
    pub url: String,
}

/// The browser window's settings.
pub struct WindowConfig {
    /// Whether the window floats above the others (a command-line flag wins over this).
    pub always_on_top: bool,
}

/// Overrides for the welcome overview's tagline and the note under the command palette;
/// absent fields keep the built-in text.
#[derive(Default)]
pub struct WelcomeConfig {
    pub tagline: Option<String>,
    pub footer: Option<String>,
}

/// The whole config file.
#[derive(Default)]
pub struct AnvilConfig {
    pub sqld: Option<ServiceConfig>,
    pub ollama: Option<ServiceConfig>,
    pub window: Option<WindowConfig>,
    pub welcome: Option<WelcomeConfig>,
    /// Directories (relative to the project) of `.js`/`.css` files mounted into every
    /// browser tab.
    pub extensions: Option<Vec<String>>,
}

/// What `anvil init` writes: the two service addresses it settled on, nothing else.
pub fn init_config(sqld_url: String, ollama_url: String) -> (r: AnvilConfig)
    ensures
        r.sqld matches Some(s) && s.url@ == sqld_url@,
        r.ollama matches Some(o) && o.url@ == ollama_url@,
        r.window is None,
        r.welcome is None,
        r.extensions is None,
{
    AnvilConfig {
        sqld: Some(ServiceConfig { url: sqld_url }),
        ollama: Some(ServiceConfig { url: ollama_url }),
        window: None,
        welcome: None,
        extensions: None,
    }
}

/// Where finding one service's address stands.
#[derive(Clone, Copy, PartialEq, Eq, Structural, Debug)]
pub enum ResolvePhase {
    /// Not started.
    Idle,
    /// Waiting for the first probe of the default address.
    FirstProbe,
    /// Waiting to learn whether a compose file is at hand.
    LocatingCompose,
    /// Waiting for `docker compose up` to exit.
    StartingCompose,
    /// Waiting for a probe of the freshly started service.
    Waiting,
    /// Waiting out the pause after a failed probe.
    Backoff,
    /// Done.
    Finished,
}

/// What happened since the last step.
#[derive(Clone, Copy, PartialEq, Eq, Structural, Debug)]
pub enum ResolveEvent {
    /// The caller starts resolving.
    Begin,
    /// A probe of the default address answered (`true`) or not.
    Probed(bool),
    /// A compose file was found (`true`) or not.
    ComposeLocated(bool),
    /// `docker compose up` exited successfully (`true`) or not.
    ComposeExited(bool),
    /// The pause after a failed probe is over.
    Slept,
}

/// How resolving ended.
#[derive(Clone, Copy, PartialEq, Eq, Structural, Debug)]
pub enum ResolveOutcome {
    /// An explicit address was given and used without probing.
    GivenExplicitly,
    /// The default address answered at once.
    AlreadyRunning,
    /// The service answered after being started.
    CameUp,
    /// The service was started but never answered.
    NeverAnswered,
    /// `docker compose up` failed.
    ComposeFailed,
    /// Nothing answered and no compose file was at hand to start one.
    NoComposeFile,
}

/// What the caller does next.
#[derive(Clone, Copy, PartialEq, Eq, Structural, Debug)]
pub enum ResolveAction {
    /// Probe the default address and report [`ResolveEvent::Probed`].
    Probe,
    /// Look for the compose file and report [`ResolveEvent::ComposeLocated`].
    LocateCompose,
    /// Run `docker compose up` for the service and report [`ResolveEvent::ComposeExited`].
    RunCompose,
    /// Pause, then report [`ResolveEvent::Slept`].
    Sleep,
    /// Stop: the address is settled, for the given reason.
    Finish(ResolveOutcome),
    /// The event does not apply now; nothing changes.
    Ignore,
}

/// One step of resolving: from the phase, the probes left and whether an explicit address
/// was given, and the event, to the next phase, the probes left and the action.
pub open spec fn spec_step(phase: ResolvePhase, probes_left: u8, has_override: bool, event: ResolveEvent) -> (
    ResolvePhase,
    u8,
    ResolveAction,
) {
    match (phase, event) {
        (ResolvePhase::Idle, ResolveEvent::Begin) => if has_override {
            (ResolvePhase::Finished, 0, ResolveAction::Finish(ResolveOutcome::GivenExplicitly))
        } else {
            (ResolvePhase::FirstProbe, 0, ResolveAction::Probe)
        },
        (ResolvePhase::FirstProbe, ResolveEvent::Probed(up)) => if up {
            (ResolvePhase::Finished, 0, ResolveAction::Finish(ResolveOutcome::AlreadyRunning))
        } else {
            (ResolvePhase::LocatingCompose, 0, ResolveAction::LocateCompose)
        },
        (ResolvePhase::LocatingCompose, ResolveEvent::ComposeLocated(found)) => if found {
            (ResolvePhase::StartingCompose, 0, ResolveAction::RunCompose)
        } else {
            (ResolvePhase::Finished, 0, ResolveAction::Finish(ResolveOutcome::NoComposeFile))
        },
        (ResolvePhase::StartingCompose, ResolveEvent::ComposeExited(ok)) => if ok {
            (ResolvePhase::Waiting, STARTUP_PROBES, ResolveAction::Probe)
        } else {
            (ResolvePhase::Finished, 0, ResolveAction::Finish(ResolveOutcome::ComposeFailed))
        },
        (ResolvePhase::Waiting, ResolveEvent::Probed(up)) => if up {
            (ResolvePhase::Finished, 0, ResolveAction::Finish(ResolveOutcome::CameUp))
        } else {
            (ResolvePhase::Backoff, if probes_left > 0 { (probes_left - 1) as u8 } else { 0 }, ResolveAction::Sleep)
        },
        (ResolvePhase::Backoff, ResolveEvent::Slept) => if probes_left > 0 {
            (ResolvePhase::Waiting, probes_left, ResolveAction::Probe)
        } else {
            (ResolvePhase::Finished, 0, ResolveAction::Finish(ResolveOutcome::NeverAnswered))
        },
        _ => (phase, probes_left, ResolveAction::Ignore),
    }
}

/// Finding one service's address.
pub struct ServiceResolution {
    pub phase: ResolvePhase,
    pub probes_left: u8,
    /// The address probed and, unless one was given, settled on.
    pub default_url: String,
    /// The address given explicitly, trusted without probing.
    pub override_url: Option<String>,
}

impl ServiceResolution {
    /// Resolution of a service normally at `default_url`, with an explicit address if one
    /// was given.
    pub fn new(default_url: String, override_url: Option<String>) -> (r: Self)
        ensures
            r.phase == ResolvePhase::Idle,
            r.probes_left == 0,
            r.default_url@ == default_url@,
            r.override_url == override_url,
    {
        ServiceResolution { phase: ResolvePhase::Idle, probes_left: 0, default_url, override_url }
    }

    /// Takes in what happened and says what to do next.
    pub fn step(&mut self, event: ResolveEvent) -> (r: ResolveAction)
        ensures
            ({
                let (phase, probes_left, action) = spec_step(
                    old(self).phase,
                    old(self).probes_left,
                    old(self).override_url is Some,
                    event,
                );
                &&& final(self).phase == phase
                &&& final(self).probes_left == probes_left
                &&& r == action
            }),
            final(self).default_url == old(self).default_url,
            final(self).override_url == old(self).override_url,
    {
        let has_override = self.override_url.is_some();
        let (phase, probes_left, action) = match (self.phase, event) {
            (ResolvePhase::Idle, ResolveEvent::Begin) => if has_override {
                (ResolvePhase::Finished, 0, ResolveAction::Finish(ResolveOutcome::GivenExplicitly))
            } else {
                (ResolvePhase::FirstProbe, 0, ResolveAction::Probe)
            },
            (ResolvePhase::FirstProbe, ResolveEvent::Probed(up)) => if up {
                (ResolvePhase::Finished, 0, ResolveAction::Finish(ResolveOutcome::AlreadyRunning))
            } else {
                (ResolvePhase::LocatingCompose, 0, ResolveAction::LocateCompose)
            },
            (ResolvePhase::LocatingCompose, ResolveEvent::ComposeLocated(found)) => if found {
                (ResolvePhase::StartingCompose, 0, ResolveAction::RunCompose)
            } else {
                (ResolvePhase::Finished, 0, ResolveAction::Finish(ResolveOutcome::NoComposeFile))
            },
            (ResolvePhase::StartingCompose, ResolveEvent::ComposeExited(ok)) => if ok {
                (ResolvePhase::Waiting, STARTUP_PROBES, ResolveAction::Probe)
            } else {
                (ResolvePhase::Finished, 0, ResolveAction::Finish(ResolveOutcome::ComposeFailed))
            },
            (ResolvePhase::Waiting, ResolveEvent::Probed(up)) => if up {
                (ResolvePhase::Finished, 0, ResolveAction::Finish(ResolveOutcome::CameUp))
            } else {
                (
                    ResolvePhase::Backoff,
                    if self.probes_left > 0 {
                        self.probes_left - 1
                    } else {
                        0
                    },
                    ResolveAction::Sleep,
                )
            },
            (ResolvePhase::Backoff, ResolveEvent::Slept) => if self.probes_left > 0 {
                (ResolvePhase::Waiting, self.probes_left, ResolveAction::Probe)
            } else {
                (ResolvePhase::Finished, 0, ResolveAction::Finish(ResolveOutcome::NeverAnswered))
            },
            _ => (self.phase, self.probes_left, ResolveAction::Ignore),
        };
        self.phase = phase;
        self.probes_left = probes_left;
        action
    }

    /// The address settled on: the explicit one when given, the default otherwise (also
    /// when the default never answered; the app copes without the service).
    pub fn resolved_url(&self) -> (r: String)
        ensures
            r@ == (match self.override_url {
                Some(u) => u@,
                None => self.default_url@,
            }),
    {
        match &self.override_url {
            Some(u) => u.clone(),
            None => self.default_url.clone(),
        }
    }
}

/// An explicit address is trusted outright: resolving finishes at the first step, with no
/// probe and no `docker compose`.
pub proof fn law_override_is_never_probed(probes_left: u8)
    ensures
        spec_step(ResolvePhase::Idle, probes_left, true, ResolveEvent::Begin) == (
            ResolvePhase::Finished,
            0u8,
            ResolveAction::Finish(ResolveOutcome::GivenExplicitly),
        ),
{
}

/// `docker compose` is only reached for once the default address did not answer: the one
/// step that asks for it leaves the compose-locating phase, and that phase is only entered
/// from a failed first probe.
pub proof fn law_compose_only_after_failed_probe(phase: ResolvePhase, probes_left: u8, has_override: bool, event: ResolveEvent)
    ensures
        spec_step(phase, probes_left, has_override, event).2 == ResolveAction::RunCompose ==> phase
            == ResolvePhase::LocatingCompose && event == ResolveEvent::ComposeLocated(true),
        spec_step(phase, probes_left, has_override, event).0 == ResolvePhase::LocatingCompose ==> (phase
            == ResolvePhase::LocatingCompose || (phase == ResolvePhase::FirstProbe && event == ResolveEvent::Probed(
            false,
        ))),
{
}

/// Waiting for a started service probes it at most [`STARTUP_PROBES`] times: the count of
/// probes left never rises while waiting, and each failed probe lowers it.
pub proof fn law_bounded_startup_probes(phase: ResolvePhase, probes_left: u8, has_override: bool, event: ResolveEvent)
    requires
        probes_left <= STARTUP_PROBES,
    ensures
        spec_step(phase, probes_left, has_override, event).1 <= STARTUP_PROBES,
        (phase == ResolvePhase::Waiting && event == ResolveEvent::Probed(false) && probes_left > 0) ==> spec_step(
            phase,
            probes_left,
            has_override,
            event,
        ).1 == probes_left - 1,
        (phase == ResolvePhase::Waiting || phase == ResolvePhase::Backoff) ==> spec_step(
            phase,
            probes_left,
            has_override,
            event,
        ).1 <= probes_left,
{
}

/// Once finished, resolving stays finished, whatever else is reported.
pub proof fn law_finished_is_final(probes_left: u8, has_override: bool, event: ResolveEvent)
    ensures
        spec_step(ResolvePhase::Finished, probes_left, has_override, event) == (
            ResolvePhase::Finished,
            probes_left,
            ResolveAction::Ignore,
        ),
{
}

/// The tagline of the welcome overview unless the project sets one.
pub const WELCOME_TAGLINE: &'static str = "A TUI swiss-army-knife for people building Escher apps.";

/// The note under the command palette unless the project sets one (one line per `\n`).
pub const DEFAULT_WELCOME_FOOTER: &'static str = "Esc backs out of whatever you're looking at. Tab expands a tool call's full output.\nType /welcome any time to turn the welcome overview back on.";

/// What the inspect page shows as the database target when none is configured.
pub const DEFAULT_SQLD_TARGET_DISPLAY: &'static str = "http://localhost:8081 (default)";

/// The settings a session starts with, from its command line, its environment and the
/// project's config file.
pub struct StartupSettings {
    /// Whether the browser window starts pinned above other windows.
    pub always_on_top: bool,
    pub welcome_tagline: String,
    pub welcome_footer: String,
    /// The database to sync with; `None` means the built-in default.
    pub sqld_url: Option<String>,
    /// The model server address the project config names, if any.
    pub ollama_url: Option<String>,
}

/// The database address by precedence: the `--connect` flag, then the sync environment
/// variable, then the project config; none of them means the default.
pub open spec fn spec_sqld_url(
    connect: Option<Seq<char>>,
    sync_env: Option<Seq<char>>,
    config_sqld: Option<Seq<char>>,
) -> Option<Seq<char>> {
    match connect {
        Some(c) => Some(c),
        None => match sync_env {
            Some(e) => Some(e),
            None => config_sqld,
        },
    }
}

/// The plain value of an optional text.
pub open spec fn opt_text(t: Option<String>) -> Option<Seq<char>> {
    match t {
        Some(s) => Some(s@),
        None => None,
    }
}

/// The `sqld` address a config file names.
pub open spec fn config_sqld(config: Option<AnvilConfig>) -> Option<Seq<char>> {
    match config {
        Some(c) => match c.sqld {
            Some(s) => Some(s.url@),
            None => None,
        },
        None => None,
    }
}

/// The Ollama address a config file names.
pub open spec fn config_ollama(config: Option<AnvilConfig>) -> Option<Seq<char>> {
    match config {
        Some(c) => match c.ollama {
            Some(s) => Some(s.url@),
            None => None,
        },
        None => None,
    }
}

/// Whether a config file pins the window.
pub open spec fn config_on_top(config: Option<AnvilConfig>) -> bool {
    match config {
        Some(c) => match c.window {
            Some(w) => w.always_on_top,
            None => false,
        },
        None => false,
    }
}

/// The welcome tagline a config file sets.
pub open spec fn config_tagline(config: Option<AnvilConfig>) -> Option<Seq<char>> {
    match config {
        Some(c) => match c.welcome {
            Some(w) => opt_text(w.tagline),
            None => None,
        },
        None => None,
    }
}

/// The welcome footer a config file sets.
pub open spec fn config_footer(config: Option<AnvilConfig>) -> Option<Seq<char>> {
    match config {
        Some(c) => match c.welcome {
            Some(w) => opt_text(w.footer),
            None => None,
        },
        None => None,
    }
}

/// A copy of an optional text.
fn copy_opt(t: &Option<String>) -> (r: Option<String>)
    ensures
        opt_text(r) == opt_text(*t),
{
    match t {
        Some(s) => Some(s.clone()),
        None => None,
    }
}

/// Resolves a session's starting settings. The command line wins over the project config:
/// `--always-on-top` pins the window even when the config does not, and `--connect` (then
/// the sync environment variable) names the database before the config does. The welcome
/// texts come from the config when it sets them, otherwise the built-in ones.
pub fn startup_settings(
    config: &Option<AnvilConfig>,
    flag_always_on_top: bool,
    connect: Option<String>,
    sync_env: Option<String>,
) -> (r: StartupSettings)
    ensures
        r.always_on_top == (flag_always_on_top || config_on_top(*config)),
        opt_text(r.sqld_url) == spec_sqld_url(opt_text(connect), opt_text(sync_env), config_sqld(*config)),
        opt_text(r.ollama_url) == config_ollama(*config),
        r.welcome_tagline@ == (match config_tagline(*config) {
            Some(t) => t,
            None => WELCOME_TAGLINE@,
        }),
        r.welcome_footer@ == (match config_footer(*config) {
            Some(t) => t,
            None => DEFAULT_WELCOME_FOOTER@,
        }),
{
    let mut on_top = flag_always_on_top;
    let mut tagline = String::from_str(WELCOME_TAGLINE);
    let mut footer = String::from_str(DEFAULT_WELCOME_FOOTER);
    let mut sqld_from_config: Option<String> = None;
    let mut ollama_url: Option<String> = None;
    match config {
        Some(c) => {
            match &c.window {
                Some(w) => {
                    on_top = on_top || w.always_on_top;
                },
                None => {},
            }
            match &c.welcome {
                Some(w) => {
                    match &w.tagline {
                        Some(t) => {
                            tagline = t.clone();
                        },
                        None => {},
                    }
                    match &w.footer {
                        Some(f) => {
                            footer = f.clone();
                        },
                        None => {},
                    }
                },
                None => {},
            }
            match &c.sqld {
                Some(s) => {
                    sqld_from_config = Some(s.url.clone());
                },
                None => {},
            }
            match &c.ollama {
                Some(o) => {
                    ollama_url = Some(o.url.clone());
                },
                None => {},
            }
        },
        None => {},
    }
    let sqld_url = match connect {
        Some(c) => Some(c),
        None => match sync_env {
            Some(e) => Some(e),
            None => sqld_from_config,
        },
    };
    StartupSettings { always_on_top: on_top, welcome_tagline: tagline, welcome_footer: footer, sqld_url, ollama_url }
}

/// What the inspect page shows as the database target.
pub fn sqld_target_display(sqld_url: &Option<String>) -> (r: String)
    ensures
        r@ == (match opt_text(*sqld_url) {
            Some(u) => u,
            None => DEFAULT_SQLD_TARGET_DISPLAY@,
        }),
{
    match copy_opt(sqld_url) {
        Some(u) => u,
        None => String::from_str(DEFAULT_SQLD_TARGET_DISPLAY),
    }
}

/// A flag given on the command line is never overridden by the project config: with
/// `--connect` the database is the flag's, whatever the environment or config say.
pub proof fn law_connect_flag_wins(connect: Seq<char>, sync_env: Option<Seq<char>>, config_sqld: Option<Seq<char>>)
    ensures
        spec_sqld_url(Some(connect), sync_env, config_sqld) == Some(connect),
{
}

} // verus!
