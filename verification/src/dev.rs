//! Decisions of `soma dev`: where the local database lives, where the Restate
//! server runs, and how the shutdown of the dev subsystems is supervised.
use vstd::prelude::*;
use crate::paths::{join_path, path_join};
use crate::restate::{
    opt_view, remote_restate_params, RemoteRestateParams, RestateError, RestateServerLocalParams,
    RestateServerParams,
};
use crate::text::{chars_of, chars_skip, chars_starts_with, is_prefix, string_of};

verus! {

/// What `url::Url::parse` followed by `Url::set_path` makes of `url` with the new
/// path `path`: the serialization of the changed URL, or `None` when `url` does
/// not parse.
pub uninterp spec fn url_with_path(url: Seq<char>, path: Seq<char>) -> Option<Seq<char>>;

/// Parses `url` with `url::Url::parse`, replaces its path with
/// `Url::set_path`, and serializes it. The result is named by `url_with_path`;
/// how the url crate encodes the path is not restated.
#[verifier::external_body]
fn set_url_path(url: &str, path: &str) -> (r: Option<String>)
    ensures
        opt_view(r) == url_with_path(url@, path@),
{
    match url::Url::parse(url) {
        Ok(mut u) => {
            u.set_path(path);
            Some(u.to_string())
        },
        Err(_) => None,
    }
}

/// The prefix of database URLs whose path is relative to the project.
pub open spec fn relative_db_prefix() -> Seq<char> {
    "libsql://./"@
}

/// `s` up to its first `c` (all of `s` when it has none).
pub open spec fn before_char(s: Seq<char>, c: char) -> Seq<char>
    decreases s.len(),
{
    if s.len() == 0 {
        s
    } else if s[0] == c {
        seq![]
    } else {
        seq![s[0]] + before_char(s.drop_first(), c)
    }
}

/// The database URL that `soma dev` uses: one of the form `libsql://./<path>?<query>`
/// gets the path made absolute against the project directory; other URLs are kept.
/// `None` when the URL does not parse.
pub open spec fn resolved_db_url(conn: Seq<char>, project_dir: Seq<char>) -> Option<Seq<char>> {
    if is_prefix(relative_db_prefix(), conn) {
        let rest = conn.skip(relative_db_prefix().len() as int);
        url_with_path(conn, path_join(project_dir, before_char(rest, '?')))
    } else {
        Some(conn)
    }
}

fn before_char_of(s: &[char], c: char) -> (r: Vec<char>)
    ensures
        r@ == before_char(s@, c),
{
    let mut i: usize = 0;
    assert(s@.skip(0) =~= s@);
    assert(s@.take(0) + s@ =~= s@);
    while i < s.len() && s[i] != c
        invariant
            i <= s@.len(),
            before_char(s@, c) == s@.take(i as int) + before_char(s@.skip(i as int), c),
        decreases s@.len() - i,
    {
        assert(s@.skip(i as int)[0] == s@[i as int]);
        assert(s@.skip(i as int).drop_first() =~= s@.skip(i + 1));
        assert(s@.take(i + 1) =~= s@.take(i as int) + seq![s@[i as int]]);
        i = i + 1;
    }
    if i < s.len() {
        assert(s@.skip(i as int)[0] == c);
    } else {
        assert(s@.skip(i as int) =~= Seq::<char>::empty());
    }
    assert(before_char(s@, c) =~= s@.take(i as int));
    crate::text::chars_slice(s, 0, i)
}

/// Resolves the database URL of `soma dev` against the project directory. The
/// URL is parsed and only its path replaced (`Url::set_path`), so its host (`.`)
/// and its query stay as they were; the URL is not rebuilt from the path as
/// `libsql://<absolute path>?<query>`.
pub fn resolve_db_conn_string(conn: &str, project_dir: &str) -> (r: Option<String>)
    ensures
        opt_view(r) == resolved_db_url(conn@, project_dir@),
{
    let c = chars_of(conn);
    let prefix = chars_of("libsql://./");
    if !chars_starts_with(c.as_slice(), prefix.as_slice()) {
        return Some(string_of(c.as_slice()));
    }
    let rest = chars_skip(c.as_slice(), prefix.len());
    let path_part = string_of(before_char_of(rest.as_slice(), '?').as_slice());
    let path = join_path(project_dir, path_part.as_str());
    set_url_path(conn, path.as_str())
}

/// The Restate server of `soma dev`: the remote one given on the command line, or
/// a local one with ingress on port 8080, admin on 9070 and the node advertised
/// on 5122.
pub fn dev_restate_params(remote: Option<RemoteRestateParams>, project_dir: String) -> (r: Result<
    RestateServerParams,
    RestateError,
>)
    ensures
        match remote {
            None => r matches Ok(RestateServerParams::Local(p)) && p.project_dir == project_dir
                && p.ingress_port == 8080 && p.admin_port == 9070 && p.advertised_node_port == 5122,
            Some(params) => match (params.admin_url, params.ingress_url) {
                (Some(a), Some(i)) => r matches Ok(RestateServerParams::Remote(p)) && p.admin_address@
                    == a@ && p.ingress_address@ == i@ && opt_view(p.admin_token) == opt_view(
                    params.admin_token,
                ),
                _ => r matches Err(RestateError::MissingRemoteAddress),
            },
        },
{
    match remote {
        Some(params) => remote_restate_params(params),
        None => Ok(
            RestateServerParams::Local(
                RestateServerLocalParams {
                    project_dir,
                    ingress_port: 8080,
                    admin_port: 9070,
                    advertised_node_port: 5122,
                },
            ),
        ),
    }
}

/// The subsystems that `soma dev` runs.
#[derive(Debug, Clone, Copy, PartialEq, Eq, Structural)]
pub enum DevSystem {
    Restate,
    FileWatcher,
    BridgeConfigChange,
    AxumServer,
    McpTransport,
    Runtime,
    SdkWatcher,
    CredentialRotation,
}

/// The subsystems whose stop is waited for once shutdown has begun: Restate,
/// the HTTP server, the runtime, the MCP transport and the SDK watcher. (Any
/// subsystem that stops unexpectedly triggers the shutdown.)
pub open spec fn needs_graceful_stop(s: DevSystem) -> bool {
    s == DevSystem::Restate || s == DevSystem::AxumServer || s == DevSystem::Runtime || s
        == DevSystem::McpTransport || s == DevSystem::SdkWatcher
}

/// The subsystems waited for, in the order they are reported.
pub open spec fn graceful_systems() -> Seq<DevSystem> {
    seq![
        DevSystem::Restate,
        DevSystem::AxumServer,
        DevSystem::Runtime,
        DevSystem::McpTransport,
        DevSystem::SdkWatcher,
    ]
}

/// Where the supervision stands.
#[derive(Debug, Clone, Copy, PartialEq, Eq, Structural)]
pub enum MonitorPhase {
    /// All subsystems run; waiting for a shutdown request or a stop.
    Running,
    /// Shutdown has begun; waiting for the subsystems that need a graceful stop.
    Draining,
    /// Supervision is over.
    Finished,
}

/// What the supervisor learns.
#[derive(Debug, Clone, Copy, PartialEq, Eq, Structural)]
pub enum MonitorEvent {
    /// A subsystem has stopped.
    Stopped(DevSystem),
    /// Shutdown was requested (Ctrl+C).
    ShutdownRequested,
    /// A periodic check.
    Tick,
    /// The wait for graceful stops ran out (after 30 seconds).
    Timeout,
}

/// What the supervisor decides.
#[derive(Debug, PartialEq, Eq)]
pub enum MonitorAction {
    Continue,
    /// A subsystem stopped unexpectedly: signal shutdown to all subsystems.
    TriggerShutdown { by: DevSystem },
    /// All subsystems that need a graceful stop have stopped.
    AllStopped,
    /// The wait ran out; these subsystems had not stopped.
    TimedOut { waiting: Vec<DevSystem> },
}

/// Supervises the shutdown of the dev subsystems.
pub struct ShutdownMonitor {
    stopped: Vec<DevSystem>,
    phase: MonitorPhase,
}

/// The graceful subsystems that have not stopped, in report order.
pub open spec fn still_waiting(stopped: Set<DevSystem>) -> Seq<DevSystem> {
    graceful_systems().filter(|s: DevSystem| !stopped.contains(s))
}

/// Whether all subsystems that need a graceful stop have stopped.
pub open spec fn all_graceful_stopped(stopped: Set<DevSystem>) -> bool {
    forall|s: DevSystem| needs_graceful_stop(s) ==> stopped.contains(s)
}

/// One step of the supervision: the new phase and the decision, given the
/// phase, the stopped subsystems (including any that the event reports) and the
/// event.
pub open spec fn monitor_step(phase: MonitorPhase, stopped: Set<DevSystem>, event: MonitorEvent) -> (
    MonitorPhase,
    Option<DevSystem>,
    bool,
    bool,
) {
    // (new phase, subsystem that triggers shutdown, all stopped, timed out)
    match phase {
        MonitorPhase::Finished => (MonitorPhase::Finished, None, false, false),
        MonitorPhase::Running => match event {
            MonitorEvent::Stopped(s) => (MonitorPhase::Draining, Some(s), false, false),
            MonitorEvent::ShutdownRequested => (MonitorPhase::Draining, None, false, false),
            _ => (MonitorPhase::Running, None, false, false),
        },
        MonitorPhase::Draining => match event {
            MonitorEvent::Timeout => if all_graceful_stopped(stopped) {
                (MonitorPhase::Finished, None, true, false)
            } else {
                (MonitorPhase::Finished, None, false, true)
            },
            _ => if all_graceful_stopped(stopped) {
                (MonitorPhase::Finished, None, true, false)
            } else {
                (MonitorPhase::Draining, None, false, false)
            },
        },
    }
}

impl ShutdownMonitor {
    pub closed spec fn stopped_set(&self) -> Set<DevSystem> {
        self.stopped@.to_set()
    }

    pub closed spec fn phase(&self) -> MonitorPhase {
        self.phase
    }

    /// Supervision of freshly started subsystems.
    pub fn new() -> (r: Self)
        ensures
            r.phase() == MonitorPhase::Running,
            r.stopped_set() == Set::<DevSystem>::empty(),
    {
        let r = ShutdownMonitor { stopped: Vec::new(), phase: MonitorPhase::Running };
        assert(r.stopped_set() =~= Set::<DevSystem>::empty());
        r
    }

    fn has_stopped(&self, s: DevSystem) -> (r: bool)
        ensures
            r == self.stopped_set().contains(s),
    {
        let mut i: usize = 0;
        while i < self.stopped.len()
            invariant
                i <= self.stopped@.len(),
                forall|j: int| 0 <= j < i ==> self.stopped@[j] != s,
            decreases self.stopped@.len() - i,
        {
            if self.stopped[i] == s {
                assert(self.stopped@.contains(s));
                return true;
            }
            i = i + 1;
        }
        false
    }

    fn waiting(&self) -> (r: Vec<DevSystem>)
        ensures
            r@ == still_waiting(self.stopped_set()),
    {
        let all: [DevSystem; 5] = [
            DevSystem::Restate,
            DevSystem::AxumServer,
            DevSystem::Runtime,
            DevSystem::McpTransport,
            DevSystem::SdkWatcher,
        ];
        assert(all@ =~= graceful_systems());
        let ghost keep = |s: DevSystem| !self.stopped_set().contains(s);
        let mut r: Vec<DevSystem> = Vec::new();
        let mut i: usize = 0;
        while i < 5
            invariant
                i <= 5,
                all@ == graceful_systems(),
                keep == (|s: DevSystem| !self.stopped_set().contains(s)),
                r@ == graceful_systems().take(i as int).filter(keep),
            decreases 5 - i,
        {
            let s = all[i];
            assert(graceful_systems().take(i + 1).drop_last() =~= graceful_systems().take(i as int));
            assert(graceful_systems().take(i + 1).last() == s);
            let done = self.has_stopped(s);
            let ghost before = r@;
            if !done {
                r.push(s);
            }
            assert(graceful_systems().take(i + 1).filter(keep) == if keep(s) {
                before.push(s)
            } else {
                before
            }) by {
                reveal(Seq::filter);
            }
            i = i + 1;
        }
        assert(graceful_systems().take(5) =~= graceful_systems());
        r
    }

    /// Takes an event and decides what to do.
    pub fn on_event(&mut self, event: MonitorEvent) -> (r: MonitorAction)
        ensures
            final(self).stopped_set() == match event {
                MonitorEvent::Stopped(s) => old(self).stopped_set().insert(s),
                _ => old(self).stopped_set(),
            },
            ({
                let (phase, trigger, all_stopped, timed_out) = monitor_step(
                    old(self).phase(),
                    final(self).stopped_set(),
                    event,
                );
                &&& final(self).phase() == phase
                &&& match trigger {
                    Some(s) => r == MonitorAction::TriggerShutdown { by: s },
                    None => if all_stopped {
                        r == MonitorAction::AllStopped
                    } else if timed_out {
                        r matches MonitorAction::TimedOut { waiting } && waiting@ == still_waiting(
                            final(self).stopped_set(),
                        )
                    } else {
                        r == MonitorAction::Continue
                    },
                }
            }),
    {
        if let MonitorEvent::Stopped(s) = event {
            let ghost before = self.stopped@;
            self.stopped.push(s);
            assert(self.stopped@.to_set() =~= before.to_set().insert(s)) by {
                assert forall|x: DevSystem| self.stopped@.contains(x) <==> before.contains(x) || x == s by {
                    if self.stopped@.contains(x) {
                        let j = choose|j: int| 0 <= j < self.stopped@.len() && self.stopped@[j] == x;
                        if j < before.len() {
                            assert(before[j] == x);
                        }
                    }
                    if before.contains(x) {
                        let j = choose|j: int| 0 <= j < before.len() && before[j] == x;
                        assert(self.stopped@[j] == x);
                    }
                    if x == s {
                        assert(self.stopped@[before.len() as int] == x);
                    }
                }
                assert forall|x: DevSystem| #[trigger] self.stopped@.to_set().contains(x) == before.to_set().insert(
                    s,
                ).contains(x) by {
                    assert(self.stopped@.to_set().contains(x) == self.stopped@.contains(x));
                    assert(before.to_set().contains(x) == before.contains(x));
                }
            }
        }
        match self.phase {
            MonitorPhase::Finished => MonitorAction::Continue,
            MonitorPhase::Running => match event {
                MonitorEvent::Stopped(s) => {
                    self.phase = MonitorPhase::Draining;
                    MonitorAction::TriggerShutdown { by: s }
                },
                MonitorEvent::ShutdownRequested => {
                    self.phase = MonitorPhase::Draining;
                    MonitorAction::Continue
                },
                _ => MonitorAction::Continue,
            },
            MonitorPhase::Draining => {
                let a = self.has_stopped(DevSystem::Restate);
                let b = self.has_stopped(DevSystem::AxumServer);
                let c = self.has_stopped(DevSystem::Runtime);
                let d = self.has_stopped(DevSystem::McpTransport);
                let e = self.has_stopped(DevSystem::SdkWatcher);
                let all = a && b && c && d && e;
                proof {
                    let st = self.stopped_set();
                    if all {
                        assert forall|x: DevSystem| needs_graceful_stop(x) implies st.contains(x) by {}
                    }
                    if all_graceful_stopped(st) {
                        assert(needs_graceful_stop(DevSystem::Restate));
                        assert(needs_graceful_stop(DevSystem::AxumServer));
                        assert(needs_graceful_stop(DevSystem::Runtime));
                        assert(needs_graceful_stop(DevSystem::McpTransport));
                        assert(needs_graceful_stop(DevSystem::SdkWatcher));
                    }
                }
                assert(all == all_graceful_stopped(self.stopped_set()));
                if all {
                    self.phase = MonitorPhase::Finished;
                    MonitorAction::AllStopped
                } else if event == MonitorEvent::Timeout {
                    self.phase = MonitorPhase::Finished;
                    MonitorAction::TimedOut { waiting: self.waiting() }
                } else {
                    MonitorAction::Continue
                }
            },
        }
    }
}

/// Shutdown is triggered by at most one subsystem: once supervision has left the
/// running phase, no event triggers it again.
pub proof fn law_shutdown_triggered_once(phase: MonitorPhase, stopped: Set<DevSystem>, event: MonitorEvent)
    requires
        phase != MonitorPhase::Running,
    ensures
        monitor_step(phase, stopped, event).1 is None,
        monitor_step(phase, stopped, event).0 != MonitorPhase::Running,
{
}

/// Supervision ends with all graceful stops done, or with the list of those that
/// did not stop, which is exactly the graceful subsystems that had not stopped.
pub proof fn law_timeout_reports_exactly_the_waiting(stopped: Set<DevSystem>)
    ensures
        monitor_step(MonitorPhase::Draining, stopped, MonitorEvent::Timeout).3 ==> (forall|s: DevSystem|
            #[trigger] still_waiting(stopped).contains(s) <==> needs_graceful_stop(s) && !stopped.contains(s)),
        monitor_step(MonitorPhase::Draining, stopped, MonitorEvent::Timeout).2 ==> all_graceful_stopped(stopped),
{
    let keep = |s: DevSystem| !stopped.contains(s);
    let g = graceful_systems();
    crate::text::lemma_filter_members(g, keep);
    assert forall|s: DevSystem| #[trigger] still_waiting(stopped).contains(s) <==> needs_graceful_stop(s)
        && !stopped.contains(s) by {
        if needs_graceful_stop(s) {
            if s == DevSystem::Restate {
                assert(g[0] == s);
            } else if s == DevSystem::AxumServer {
                assert(g[1] == s);
            } else if s == DevSystem::Runtime {
                assert(g[2] == s);
            } else if s == DevSystem::McpTransport {
                assert(g[3] == s);
            } else {
                assert(g[4] == s);
            }
        }
        if still_waiting(stopped).contains(s) {
            let i = choose|i: int| 0 <= i < g.filter(keep).len() && g.filter(keep)[i] == s;
            assert(g.contains(s));
        }
    }
}

} // verus!
