//! Watching the project directory: which paths are watched, which file events
//! count, how bursts of events are collapsed, and when a change concerns
//! `soma.yaml`.
use vstd::prelude::*;
use crate::text::{chars_eq, chars_of, chars_starts_with, is_prefix, split_chars, split_on, string_of};

verus! {

/// The kind of a file-system event, as the watcher reports it.
#[derive(Debug, Clone, Copy, PartialEq, Eq, Structural)]
pub enum ChangeKind {
    Any,
    Access,
    Create,
    Modify,
    Remove,
    Other,
}

/// One file-system event: its kind and the paths it concerns.
#[derive(Debug, Clone)]
pub struct FileChange {
    pub kind: ChangeKind,
    pub paths: Vec<String>,
}

/// A batch of file changes, as handed to the rest of the tool.
#[derive(Debug, Clone)]
pub struct FileChangeEvt {
    pub changes: Vec<FileChange>,
}

/// The last path component among the `/`-separated pieces (empty pieces and `.`
/// are not components).
pub open spec fn last_component(pieces: Seq<Seq<char>>) -> Option<Seq<char>>
    decreases pieces.len(),
{
    if pieces.len() == 0 {
        None
    } else if pieces.last().len() == 0 || pieces.last() == "."@ {
        last_component(pieces.drop_last())
    } else {
        Some(pieces.last())
    }
}

/// `path` ends with the component `soma.yaml` (as `Path::ends_with` tests it).
pub open spec fn ends_with_soma_yaml(path: Seq<char>) -> bool {
    last_component(split_on(path, '/')) == Some("soma.yaml"@)
}

fn path_ends_with_soma_yaml(path: &str) -> (r: bool)
    ensures
        r == ends_with_soma_yaml(path@),
{
    let v = chars_of(path);
    let pieces = split_chars(v.as_slice(), '/');
    let ghost ps = pieces@.map_values(|x: Vec<char>| x@);
    let dot = chars_of(".");
    let target = chars_of("soma.yaml");
    let mut n: usize = pieces.len();
    assert(ps.take(n as int) =~= ps);
    while n > 0
        invariant
            n <= pieces@.len(),
            ps == pieces@.map_values(|x: Vec<char>| x@),
            ps == split_on(path@, '/'),
            dot@ == "."@,
            target@ == "soma.yaml"@,
            last_component(ps) == last_component(ps.take(n as int)),
        decreases n,
    {
        let piece = &pieces[n - 1];
        assert(ps.take(n as int).last() == piece@);
        assert(ps.take(n as int).drop_last() =~= ps.take(n - 1));
        if piece.len() == 0 || chars_eq(piece.as_slice(), dot.as_slice()) {
            n = n - 1;
        } else {
            return chars_eq(piece.as_slice(), target.as_slice());
        }
    }
    false
}

/// Some path of some change ends with `soma.yaml`.
pub open spec fn mentions_soma_yaml(changes: Seq<FileChange>) -> bool {
    exists|i: int, j: int|
        0 <= i < changes.len() && 0 <= j < changes[i].paths@.len() && ends_with_soma_yaml(
            #[trigger] changes[i].paths@[j]@,
        )
}

/// Checks if a file change event contains `soma.yaml` changes.
pub fn is_soma_config_change(event: &FileChangeEvt) -> (r: bool)
    ensures
        r == mentions_soma_yaml(event.changes@),
{
    let mut i: usize = 0;
    while i < event.changes.len()
        invariant
            i <= event.changes@.len(),
            forall|a: int, b: int|
                0 <= a < i && 0 <= b < event.changes@[a].paths@.len() ==> !ends_with_soma_yaml(
                    #[trigger] event.changes@[a].paths@[b]@,
                ),
        decreases event.changes@.len() - i,
    {
        let paths = &event.changes[i].paths;
        let mut j: usize = 0;
        while j < paths.len()
            invariant
                i < event.changes@.len(),
                paths == &event.changes@[i as int].paths,
                j <= paths@.len(),
                forall|b: int| 0 <= b < j ==> !ends_with_soma_yaml(#[trigger] paths@[b]@),
            decreases paths@.len() - j,
        {
            if path_ends_with_soma_yaml(paths[j].as_str()) {
                return true;
            }
            j = j + 1;
        }
        i = i + 1;
    }
    false
}

/// Writes, creations and removals are changes; reads and other events are not.
pub open spec fn is_relevant_kind(kind: ChangeKind) -> bool {
    kind == ChangeKind::Create || kind == ChangeKind::Modify || kind == ChangeKind::Remove
}

/// What `globset` says of `path` for a set built from `patterns`: whether some
/// pattern matches it, or `None` when a pattern is not a valid glob.
pub uninterp spec fn glob_set_match(patterns: Seq<Seq<char>>, path: Seq<char>) -> Option<bool>;

pub open spec fn patterns_view(patterns: Seq<String>) -> Seq<Seq<char>> {
    patterns.map_values(|p: String| p@)
}

/// Builds a `globset::GlobSet` from `patterns` (each through `globset::Glob::new`)
/// and calls `GlobSet::is_match` on `path`. The result is named by
/// `glob_set_match`; the glob syntax is globset's and is not restated. A set
/// with no patterns matches nothing, as globset documents.
#[verifier::external_body]
fn globs_match(patterns: &Vec<String>, path: &str) -> (r: Option<bool>)
    ensures
        r == glob_set_match(patterns_view(patterns@), path@),
        patterns@.len() == 0 ==> r == Some(false),
{
    let mut builder = globset::GlobSetBuilder::new();
    for p in patterns {
        match globset::Glob::new(p) {
            Ok(g) => {
                builder.add(g);
            },
            Err(_) => return None,
        }
    }
    match builder.build() {
        Ok(set) => Some(set.is_match(path)),
        Err(_) => None,
    }
}

/// A glob pattern that does not compile.
#[derive(Debug)]
pub struct InvalidGlob;

/// The glob patterns of the files to watch: `soma.yaml`.
pub fn files_to_watch_v1() -> (r: Vec<String>)
    ensures
        patterns_view(r@) == seq!["soma.yaml"@],
{
    let mut r: Vec<String> = Vec::new();
    r.push(string_of(chars_of("soma.yaml").as_slice()));
    assert(patterns_view(r@) =~= seq!["soma.yaml"@]);
    r
}

/// The glob patterns of the files to ignore: none.
pub fn files_to_ignore_v1() -> (r: Vec<String>)
    ensures
        r@.len() == 0,
{
    Vec::new()
}

/// The events worth reporting: those of a relevant kind none of whose paths is
/// ignored, in order.
pub open spec fn relevant_changes(changes: Seq<FileChange>, ignore: Seq<Seq<char>>) -> Option<
    Seq<FileChange>,
>
    decreases changes.len(),
{
    if changes.len() == 0 {
        Some(seq![])
    } else {
        match relevant_changes(changes.drop_last(), ignore) {
            None => None,
            Some(prev) => {
                let c = changes.last();
                match any_path_ignored(c.paths@, ignore) {
                    None => None,
                    Some(true) => Some(prev),
                    Some(false) => if is_relevant_kind(c.kind) {
                        Some(prev.push(c))
                    } else {
                        Some(prev)
                    },
                }
            },
        }
    }
}

/// Whether some path matches the ignore patterns (`None` for invalid patterns).
pub open spec fn any_path_ignored(paths: Seq<String>, ignore: Seq<Seq<char>>) -> Option<bool>
    decreases paths.len(),
{
    if paths.len() == 0 {
        Some(false)
    } else {
        match any_path_ignored(paths.drop_last(), ignore) {
            None => None,
            Some(true) => Some(true),
            Some(false) => glob_set_match(ignore, paths.last()@),
        }
    }
}

fn path_ignored(paths: &Vec<String>, ignore: &Vec<String>) -> (r: Option<bool>)
    ensures
        r == any_path_ignored(paths@, patterns_view(ignore@)),
{
    let mut acc: Option<bool> = Some(false);
    let mut i: usize = 0;
    while i < paths.len()
        invariant
            i <= paths@.len(),
            acc == any_path_ignored(paths@.take(i as int), patterns_view(ignore@)),
        decreases paths@.len() - i,
    {
        assert(paths@.take(i + 1).drop_last() =~= paths@.take(i as int));
        acc = match acc {
            None => None,
            Some(true) => Some(true),
            Some(false) => globs_match(ignore, paths[i].as_str()),
        };
        i = i + 1;
    }
    assert(paths@.take(paths@.len() as int) =~= paths@);
    acc
}

proof fn lemma_relevant_none_persists(changes: Seq<FileChange>, ignore: Seq<Seq<char>>, k: int)
    requires
        0 <= k <= changes.len(),
        relevant_changes(changes.take(k), ignore) is None,
    ensures
        relevant_changes(changes, ignore) is None,
    decreases changes.len() - k,
{
    if k < changes.len() {
        assert(changes.take(k + 1).drop_last() =~= changes.take(k));
        lemma_relevant_none_persists(changes, ignore, k + 1);
    } else {
        assert(changes.take(k) =~= changes);
    }
}

/// Keeps the events of a relevant kind whose paths are not ignored.
pub fn filter_relevant_changes(changes: Vec<FileChange>, ignore: &Vec<String>) -> (r: Result<
    Vec<FileChange>,
    InvalidGlob,
>)
    ensures
        match relevant_changes(changes@, patterns_view(ignore@)) {
            Some(keep) => r matches Ok(v) && v@ == keep,
            None => r is Err,
        },
{
    let ghost all = changes@;
    let mut kept: Vec<FileChange> = Vec::new();
    assert(all.len() == changes.len());
    let mut rest = changes;
    assert(rest@ =~= all.skip(0));
    let mut i: usize = 0;
    while rest.len() > 0
        invariant
            i + rest@.len() == all.len(),
            all == changes@,
            all.len() <= usize::MAX,
            rest@ == all.skip(i as int),
            relevant_changes(all.take(i as int), patterns_view(ignore@)) == Some(kept@),
        decreases rest@.len(),
    {
        let c = rest.remove(0);
        assert(c == all[i as int]);
        assert(all.take(i + 1).drop_last() =~= all.take(i as int));
        assert(all.take(i + 1).last() == all[i as int]);
        assert(rest@ =~= all.skip(i + 1));
        match path_ignored(&c.paths, ignore) {
            None => {
                proof {
                    assert(relevant_changes(all.take(i + 1), patterns_view(ignore@)) is None);
                    lemma_relevant_none_persists(all, patterns_view(ignore@), i + 1);
                    assert(relevant_changes(all, patterns_view(ignore@)) is None);
                }
                return Err(InvalidGlob);
            },
            Some(true) => {},
            Some(false) => {
                if c.kind == ChangeKind::Create || c.kind == ChangeKind::Modify || c.kind
                    == ChangeKind::Remove {
                    kept.push(c);
                }
            },
        }
        i = i + 1;
    }
    assert(all.take(i as int) =~= all);
    Ok(kept)
}

/// What the watcher does with a path found while walking the project.
#[derive(Debug, PartialEq, Eq)]
pub enum WatchStep {
    /// Leave it alone.
    Skip,
    /// A directory: walk into it.
    Descend,
    /// A file to watch.
    Watch,
}

/// The step for a path: ignored paths are skipped, directories are walked into,
/// files that match the watch patterns are watched, others skipped.
pub open spec fn watch_step(
    relative_path: Seq<char>,
    is_dir: bool,
    watch: Seq<Seq<char>>,
    ignore: Seq<Seq<char>>,
) -> Option<WatchStep> {
    match glob_set_match(ignore, relative_path) {
        None => None,
        Some(true) => Some(WatchStep::Skip),
        Some(false) => if is_dir {
            Some(WatchStep::Descend)
        } else {
            match glob_set_match(watch, relative_path) {
                None => None,
                Some(true) => Some(WatchStep::Watch),
                Some(false) => Some(WatchStep::Skip),
            }
        },
    }
}

/// Classifies a path (relative to the project root) found while walking.
pub fn classify_watch_path(
    relative_path: &str,
    is_dir: bool,
    watch: &Vec<String>,
    ignore: &Vec<String>,
) -> (r: Result<WatchStep, InvalidGlob>)
    ensures
        match watch_step(relative_path@, is_dir, patterns_view(watch@), patterns_view(ignore@)) {
            Some(s) => r matches Ok(t) && t == s,
            None => r is Err,
        },
{
    match globs_match(ignore, relative_path) {
        None => Err(InvalidGlob),
        Some(true) => Ok(WatchStep::Skip),
        Some(false) => {
            if is_dir {
                Ok(WatchStep::Descend)
            } else {
                match globs_match(watch, relative_path) {
                    None => Err(InvalidGlob),
                    Some(true) => Ok(WatchStep::Watch),
                    Some(false) => Ok(WatchStep::Skip),
                }
            }
        },
    }
}

/// `path` relative to `root`, for paths reached by joining onto `root`; other
/// paths stay as they are.
pub open spec fn relative_to(path: Seq<char>, root: Seq<char>) -> Seq<char> {
    if path == root {
        seq![]
    } else if root.len() > 0 && root.last() == '/' && is_prefix(root, path) {
        path.skip(root.len() as int)
    } else if is_prefix(root.push('/'), path) {
        path.skip(root.len() + 1 as int)
    } else {
        path
    }
}

/// The path of `path` relative to the project root.
pub fn relative_path(path: &str, root: &str) -> (r: String)
    ensures
        r@ == relative_to(path@, root@),
{
    let p = chars_of(path);
    let rt = chars_of(root);
    if chars_eq(p.as_slice(), rt.as_slice()) {
        return String::new();
    }
    if rt.len() > 0 && rt[rt.len() - 1] == '/' && chars_starts_with(p.as_slice(), rt.as_slice()) {
        return string_of(crate::text::chars_skip(p.as_slice(), rt.len()).as_slice());
    }
    let mut rs = rt.clone();
    rs.push('/');
    if chars_starts_with(p.as_slice(), rs.as_slice()) {
        return string_of(crate::text::chars_skip(p.as_slice(), rs.len()).as_slice());
    }
    string_of(p.as_slice())
}

/// Bursts of changes closer than this (in milliseconds) are reported together.
pub open spec fn debounce_window_ms() -> nat {
    1000
}

/// One step of the debouncer: the new last-report time and pending changes, and
/// the batch reported now (if any). A batch is reported when nothing was
/// reported before or at least the window has passed since the last report (a
/// clock that went back counts as no time passed); otherwise the changes wait.
pub open spec fn debounce_step<C>(
    last: Option<u64>,
    pending: Seq<C>,
    now: u64,
    changes: Seq<C>,
) -> (Option<u64>, Seq<C>, Option<Seq<C>>) {
    let all = pending + changes;
    let fire = match last {
        None => true,
        Some(t) => now >= t && now - t >= debounce_window_ms(),
    };
    if fire {
        (Some(now), seq![], Some(all))
    } else {
        (last, all, None)
    }
}

/// A debouncer step loses and repeats no change: the batch reported now (if any)
/// followed by what stays pending is what was pending followed by the new changes.
pub proof fn law_debounce_step_keeps_every_change<C>(
    last: Option<u64>,
    pending: Seq<C>,
    now: u64,
    changes: Seq<C>,
)
    ensures
        ({
            let (_, kept, out) = debounce_step(last, pending, now, changes);
            match out {
                Some(batch) => batch + kept == pending + changes,
                None => kept == pending + changes,
            }
        }),
{
    assert(seq![] + (pending + changes) =~= pending + changes);
    assert((pending + changes) + seq![] =~= pending + changes);
}

/// Two reports are at least the debounce window apart: a step that reports after
/// an earlier report comes at least the window later, and becomes the new
/// last-report time.
pub proof fn law_debounce_reports_are_spaced<C>(
    last: Option<u64>,
    pending: Seq<C>,
    now: u64,
    changes: Seq<C>,
)
    ensures
        ({
            let (new_last, _, out) = debounce_step(last, pending, now, changes);
            &&& out is Some ==> new_last == Some(now)
            &&& out is None ==> new_last == last
            &&& (out is Some && last is Some) ==> now >= last->0 + debounce_window_ms()
            &&& last is None ==> out is Some
        }),
{
}

/// The state and the reports after a run of debouncer steps, each step taking
/// the changes received at a time: the last-report time, the pending changes,
/// and all reported changes in the order they were reported.
pub open spec fn debounce_run<C>(last: Option<u64>, pending: Seq<C>, events: Seq<(u64, Seq<C>)>) -> (
    Option<u64>,
    Seq<C>,
    Seq<C>,
)
    decreases events.len(),
{
    if events.len() == 0 {
        (last, pending, seq![])
    } else {
        let (l1, p1, out) = debounce_step(last, pending, events[0].0, events[0].1);
        let (l2, p2, reported) = debounce_run(l1, p1, events.drop_first());
        let now_reported = match out {
            Some(b) => b,
            None => seq![],
        };
        (l2, p2, now_reported + reported)
    }
}

/// All changes received in a run of steps, in order.
pub open spec fn received<C>(events: Seq<(u64, Seq<C>)>) -> Seq<C>
    decreases events.len(),
{
    if events.len() == 0 {
        seq![]
    } else {
        events[0].1 + received(events.drop_first())
    }
}

/// Over any run of calls, the debouncer loses and repeats no change: everything it
/// reported, followed by what is still pending, is what was pending at the start
/// followed by every change it received, in order.
pub proof fn law_debounce_run_keeps_every_change<C>(
    last: Option<u64>,
    pending: Seq<C>,
    events: Seq<(u64, Seq<C>)>,
)
    ensures
        ({
            let (_, kept, reported) = debounce_run(last, pending, events);
            reported + kept == pending + received(events)
        }),
    decreases events.len(),
{
    if events.len() == 0 {
        assert(pending + seq![] =~= pending);
        assert(seq![] + pending =~= pending);
    } else {
        let (l1, p1, out) = debounce_step(last, pending, events[0].0, events[0].1);
        law_debounce_step_keeps_every_change(last, pending, events[0].0, events[0].1);
        law_debounce_run_keeps_every_change(l1, p1, events.drop_first());
        let (l2, p2, rest) = debounce_run(l1, p1, events.drop_first());
        let now_reported = match out {
            Some(b) => b,
            None => seq![],
        };
        assert(now_reported + p1 == pending + events[0].1) by {
            if out is None {
                assert(seq![] + p1 =~= p1);
            }
        }
        assert((now_reported + rest) + p2 =~= now_reported + (rest + p2));
        assert(now_reported + (p1 + received(events.drop_first())) =~= (now_reported + p1)
            + received(events.drop_first()));
        assert((pending + events[0].1) + received(events.drop_first()) =~= pending + (events[0].1
            + received(events.drop_first())));
    }
}

/// The kept changes are some of the given ones, each of a relevant kind.
pub proof fn law_relevant_changes_are_relevant(changes: Seq<FileChange>, ignore: Seq<Seq<char>>)
    ensures
        relevant_changes(changes, ignore) matches Some(keep) ==> keep.len() <= changes.len()
            && forall|i: int| 0 <= i < keep.len() ==> is_relevant_kind(#[trigger] keep[i].kind)
            && changes.contains(keep[i]),
    decreases changes.len(),
{
    if changes.len() > 0 {
        law_relevant_changes_are_relevant(changes.drop_last(), ignore);
        if let Some(keep) = relevant_changes(changes, ignore) {
            let prev = relevant_changes(changes.drop_last(), ignore)->0;
            assert forall|i: int| 0 <= i < keep.len() implies is_relevant_kind(#[trigger] keep[i].kind)
                && changes.contains(keep[i]) by {
                if i < prev.len() {
                    assert(keep[i] == prev[i]);
                    let j = choose|j: int| 0 <= j < changes.drop_last().len() && changes.drop_last()[j] == prev[i];
                    assert(changes[j] == prev[i]);
                } else {
                    assert(keep[i] == changes.last());
                    assert(changes[changes.len() - 1] == keep[i]);
                }
            }
        }
    }
}

/// A path joined onto the root (with a relative part) has that part as its path
/// relative to the root.
pub proof fn law_relative_path_undoes_join(root: Seq<char>, part: Seq<char>)
    requires
        !(part.len() > 0 && part[0] == '/'),
    ensures
        relative_to(crate::paths::path_join(root, part), root) == part,
{
    let p = crate::paths::path_join(root, part);
    if root.len() == 0 {
        assert(p =~= part);
        if part.len() > 0 {
            assert(!is_prefix(root.push('/'), p)) by {
                assert(root.push('/')[0] == '/');
            }
        }
    } else if root.last() == '/' {
        assert(p =~= root + part);
        assert(is_prefix(root, p)) by {
            assert(p.take(root.len() as int) =~= root);
        }
        assert(p.skip(root.len() as int) =~= part);
        if p == root {
            assert(part.len() == 0);
        }
    } else {
        assert(p =~= root + seq!['/'] + part);
        assert(p != root) by {
            assert(p.len() != root.len());
        }
        assert(is_prefix(root.push('/'), p)) by {
            assert(p.take(root.len() + 1int) =~= root.push('/'));
        }
        assert(p.skip(root.len() + 1int) =~= part);
    }
}

/// Collapses bursts of file changes into single reports.
pub struct ChangeDebouncer {
    last_report_ms: Option<u64>,
    pending: Vec<FileChange>,
}

impl ChangeDebouncer {
    pub closed spec fn last_report(&self) -> Option<u64> {
        self.last_report_ms
    }

    pub closed spec fn pending(&self) -> Seq<FileChange> {
        self.pending@
    }

    /// A debouncer that has reported nothing yet.
    pub fn new() -> (r: Self)
        ensures
            r.last_report() is None,
            r.pending() == Seq::<FileChange>::empty(),
    {
        ChangeDebouncer { last_report_ms: None, pending: Vec::new() }
    }

    /// Takes the changes received at time `now_ms`; gives the batch to report now,
    /// if the window allows one.
    pub fn on_changes(&mut self, now_ms: u64, changes: Vec<FileChange>) -> (r: Option<
        Vec<FileChange>,
    >)
        ensures
            ({
                let (last, pending, out) = debounce_step(
                    old(self).last_report(),
                    old(self).pending(),
                    now_ms,
                    changes@,
                );
                &&& final(self).last_report() == last
                &&& final(self).pending() == pending
                &&& match out {
                    Some(batch) => r matches Some(v) && v@ == batch,
                    None => r is None,
                }
            }),
    {
        let mut incoming = changes;
        self.pending.append(&mut incoming);
        let fire = match self.last_report_ms {
            None => true,
            Some(t) => now_ms >= t && now_ms - t >= 1000,
        };
        if fire {
            self.last_report_ms = Some(now_ms);
            let mut batch: Vec<FileChange> = Vec::new();
            std::mem::swap(&mut batch, &mut self.pending);
            Some(batch)
        } else {
            None
        }
    }
}

/// Whether the ignore patterns match one of the change's paths.
pub open spec fn some_path_matches(c: FileChange, ignore: Seq<Seq<char>>) -> bool {
    exists|j: int| 0 <= j < c.paths@.len() && #[trigger] glob_set_match(ignore, c.paths@[j]@) == Some(true)
}

/// The patterns answer (as valid globs) for every path of the changes.
pub open spec fn patterns_answer(changes: Seq<FileChange>, ignore: Seq<Seq<char>>) -> bool {
    forall|i: int, j: int|
        0 <= i < changes.len() && 0 <= j < changes[i].paths@.len() ==> (#[trigger] glob_set_match(
            ignore,
            changes[i].paths@[j]@,
        )) is Some
}

proof fn lemma_any_path_ignored_answers(paths: Seq<String>, ignore: Seq<Seq<char>>)
    requires
        forall|j: int| 0 <= j < paths.len() ==> (#[trigger] glob_set_match(ignore, paths[j]@)) is Some,
    ensures
        any_path_ignored(paths, ignore) == Some(
            exists|j: int| 0 <= j < paths.len() && #[trigger] glob_set_match(ignore, paths[j]@) == Some(true),
        ),
    decreases paths.len(),
{
    if paths.len() > 0 {
        let d = paths.drop_last();
        assert forall|j: int| 0 <= j < d.len() implies (#[trigger] glob_set_match(ignore, d[j]@)) is Some by {
            assert(d[j] == paths[j]);
        }
        lemma_any_path_ignored_answers(d, ignore);
        let last = paths.len() - 1;
        assert(paths.last() == paths[last]);
        assert(glob_set_match(ignore, paths[last]@) is Some);
        if exists|j: int| 0 <= j < d.len() && #[trigger] glob_set_match(ignore, d[j]@) == Some(true) {
            let j = choose|j: int| 0 <= j < d.len() && #[trigger] glob_set_match(ignore, d[j]@) == Some(true);
            assert(d[j] == paths[j]);
            assert(glob_set_match(ignore, paths[j]@) == Some(true));
        } else {
            if exists|j: int| 0 <= j < paths.len() && #[trigger] glob_set_match(ignore, paths[j]@) == Some(true) {
                let j = choose|j: int| 0 <= j < paths.len() && #[trigger] glob_set_match(ignore, paths[j]@) == Some(true);
                if j < last {
                    assert(d[j] == paths[j]);
                    assert(glob_set_match(ignore, d[j]@) == Some(true));
                }
            }
        }
    }
}

/// The filter keeps exactly the changes of a relevant kind (created, modified
/// or removed) none of whose paths the ignore patterns match, whatever number
/// of paths a change reports, in their order: no such change is lost and no
/// other is kept.
pub proof fn law_relevant_changes_are_exactly_the_unignored(changes: Seq<FileChange>, ignore: Seq<Seq<char>>)
    requires
        patterns_answer(changes, ignore),
    ensures
        relevant_changes(changes, ignore) == Some(
            changes.filter(|c: FileChange| is_relevant_kind(c.kind) && !some_path_matches(c, ignore)),
        ),
    decreases changes.len(),
{
    reveal(Seq::filter);
    let keep = |c: FileChange| is_relevant_kind(c.kind) && !some_path_matches(c, ignore);
    if changes.len() > 0 {
        let d = changes.drop_last();
        assert forall|i: int, j: int|
            0 <= i < d.len() && 0 <= j < d[i].paths@.len() implies (#[trigger] glob_set_match(
            ignore,
            d[i].paths@[j]@,
        )) is Some by {
            assert(d[i] == changes[i]);
        }
        law_relevant_changes_are_exactly_the_unignored(d, ignore);
        let c = changes.last();
        let last = changes.len() - 1;
        assert(changes[last] == c);
        assert forall|j: int| 0 <= j < c.paths@.len() implies (#[trigger] glob_set_match(ignore, c.paths@[j]@)) is Some by {
            assert(glob_set_match(ignore, changes[last].paths@[j]@) is Some);
        }
        lemma_any_path_ignored_answers(c.paths@, ignore);
        assert(changes.filter(keep) == if keep(c) {
            d.filter(keep).push(c)
        } else {
            d.filter(keep)
        });
    } else {
        assert(changes.filter(keep) =~= changes);
    }
}

} // verus!
