//! Recognising the project's runtime from the files in its directory, and finding
//! a free port for it.
use vstd::prelude::*;
use crate::error::SomaError;
use crate::paths::{join_path, path_join};
use crate::restate::CommandPlan;
use crate::text::{chars_of, string_of};

verus! {

/// The runtimes that Soma can run a project with.
#[derive(Debug, Clone, Copy, PartialEq, Eq)]
pub enum Runtime {
    PnpmV1,
}

/// The TypeScript SDK client that runs a project's dev server with `pnpm`.
pub struct Typescript {}

fn owned(s: &str) -> (r: String)
    ensures
        r@ == s@,
{
    string_of(chars_of(s).as_slice())
}

impl Typescript {
    pub fn new() -> (r: Self) {
        Typescript {  }
    }

    /// The dev server of a TypeScript project: `pnpm dlx vite dev` in the project
    /// directory, told where the Soma server socket is by `SOMA_SERVER_SOCK`.
    pub fn start_dev_server_command(&self, project_dir: &str, socket_path: &str) -> (r: CommandPlan)
        ensures
            r.program@ == "pnpm"@,
            r.args@.map_values(|a: String| a@) == seq!["dlx"@, "vite"@, "dev"@],
            r.envs@.map_values(|e: (String, String)| (e.0@, e.1@)) == seq![
                ("SOMA_SERVER_SOCK"@, socket_path@),
            ],
            r.cwd matches Some(d) && d@ == project_dir@,
    {
        let mut args: Vec<String> = Vec::new();
        args.push(owned("dlx"));
        args.push(owned("vite"));
        args.push(owned("dev"));
        let mut envs: Vec<(String, String)> = Vec::new();
        envs.push((owned("SOMA_SERVER_SOCK"), owned(socket_path)));
        let r = CommandPlan { program: owned("pnpm"), args, envs, cwd: Some(owned(project_dir)) };
        assert(r.args@.map_values(|a: String| a@) =~= seq!["dlx"@, "vite"@, "dev"@]);
        assert(r.envs@.map_values(|e: (String, String)| (e.0@, e.1@)) =~= seq![
            ("SOMA_SERVER_SOCK"@, socket_path@),
        ]);
        r
    }

    /// The production build of a TypeScript project: `pnpm dlx vite build` in the
    /// project directory.
    pub fn build_command(&self, project_dir: &str) -> (r: CommandPlan)
        ensures
            r.program@ == "pnpm"@,
            r.args@.map_values(|a: String| a@) == seq!["dlx"@, "vite"@, "build"@],
            r.envs@.len() == 0,
            r.cwd matches Some(d) && d@ == project_dir@,
    {
        let mut args: Vec<String> = Vec::new();
        args.push(owned("dlx"));
        args.push(owned("vite"));
        args.push(owned("build"));
        let r = CommandPlan { program: owned("pnpm"), args, envs: Vec::new(), cwd: Some(owned(project_dir)) };
        assert(r.args@.map_values(|a: String| a@) =~= seq!["dlx"@, "vite"@, "build"@]);
        r
    }
}

/// The files that mark a pnpm project: a package manifest and an `index.ts`
/// entry point.
pub open spec fn pnpm_v1_files() -> Seq<Seq<char>> {
    seq!["package.json"@, "index.ts"@]
}

/// The files that mark a Bun project.
pub open spec fn bun_v1_files() -> Seq<Seq<char>> {
    seq!["package.json"@, "index.ts"@]
}

/// `file_exists` answered `answer` when asked about a path whose text is `path`.
pub open spec fn answered<F: Fn(String) -> bool>(file_exists: F, path: Seq<char>, answer: bool) -> bool {
    exists|p: String| #[trigger] call_ensures(file_exists, (p,), answer) && p@ == path
}

/// The answer to "do all `files` exist in `dir`?" that `file_exists` gave: true when
/// it said yes for every file, checked in order; false when it said no for some
/// file.
pub open spec fn all_files_found<F: Fn(String) -> bool>(
    file_exists: F,
    dir: Seq<char>,
    files: Seq<Seq<char>>,
    found: bool,
) -> bool {
    if found {
        forall|i: int| 0 <= i < files.len() ==> answered(file_exists, path_join(dir, #[trigger] files[i]), true)
    } else {
        exists|i: int| 0 <= i < files.len() && answered(file_exists, path_join(dir, #[trigger] files[i]), false)
    }
}

fn files_present<F: Fn(String) -> bool>(src_dir: &str, files: &[&str], file_exists: &F) -> (r: bool)
    requires
        forall|p: String| call_requires(*file_exists, (p,)),
    ensures
        all_files_found(*file_exists, src_dir@, files@.map_values(|f: &str| f@), r),
{
    let ghost fs = files@.map_values(|f: &str| f@);
    let mut i: usize = 0;
    while i < files.len()
        invariant
            i <= files@.len(),
            fs == files@.map_values(|f: &str| f@),
            forall|p: String| call_requires(*file_exists, (p,)),
            forall|j: int| 0 <= j < i ==> answered(*file_exists, path_join(src_dir@, #[trigger] fs[j]), true),
        decreases files@.len() - i,
    {
        let path = join_path(src_dir, files[i]);
        let ghost pg = path;
        let found = file_exists(path);
        assert(pg@ == path_join(src_dir@, fs[i as int]));
        assert(answered(*file_exists, path_join(src_dir@, fs[i as int]), found));
        if !found {
            return false;
        }
        i = i + 1;
    }
    true
}

/// Whether `src_dir` holds a pnpm project: `package.json` and `index.ts`, as
/// `file_exists` reports them.
pub fn validate_runtime_pnpm_v1<F: Fn(String) -> bool>(src_dir: &str, file_exists: &F) -> (r: Result<
    bool,
    SomaError,
>)
    requires
        forall|p: String| call_requires(*file_exists, (p,)),
    ensures
        r matches Ok(found) && all_files_found(*file_exists, src_dir@, pnpm_v1_files(), found),
{
    let files: [&str; 2] = ["package.json", "index.ts"];
    let found = files_present(src_dir, &files, file_exists);
    assert(files@.map_values(|f: &str| f@) =~= pnpm_v1_files());
    Ok(found)
}

/// Whether `src_dir` holds a Bun project: `package.json` and `index.ts`, as
/// `file_exists` reports them.
pub fn validate_runtime_bun_v1<F: Fn(String) -> bool>(src_dir: &str, file_exists: &F) -> (r: Result<
    bool,
    SomaError,
>)
    requires
        forall|p: String| call_requires(*file_exists, (p,)),
    ensures
        r matches Ok(found) && all_files_found(*file_exists, src_dir@, bun_v1_files(), found),
{
    let files: [&str; 2] = ["package.json", "index.ts"];
    let found = files_present(src_dir, &files, file_exists);
    assert(files@.map_values(|f: &str| f@) =~= bun_v1_files());
    Ok(found)
}

/// Check if the project uses Vite by looking for `vite.config.ts`.
pub fn is_vite_project<F: Fn(String) -> bool>(src_dir: &str, file_exists: &F) -> (r: bool)
    requires
        forall|p: String| call_requires(*file_exists, (p,)),
    ensures
        answered(*file_exists, path_join(src_dir@, "vite.config.ts"@), r),
{
    let path = join_path(src_dir, "vite.config.ts");
    let ghost pg = path;
    let r = file_exists(path);
    assert(pg@ == path_join(src_dir@, "vite.config.ts"@));
    r
}

/// Where the dev runtime's SDK server listens.
pub open spec fn default_soma_server_sock() -> Seq<char> {
    "/tmp/soma-sdk.sock"@
}

/// The dev runtime of a project: the TypeScript dev server, told to reach the SDK
/// server at `/tmp/soma-sdk.sock`. Only Vite projects (with `vite.config.ts`,
/// as `file_exists` reports it) can be run; others are refused.
pub fn dev_runtime_command<F: Fn(String) -> bool>(project_dir: &str, file_exists: &F) -> (r: Result<
    CommandPlan,
    SomaError,
>)
    requires
        forall|p: String| call_requires(*file_exists, (p,)),
    ensures
        r is Err ==> answered(*file_exists, path_join(project_dir@, "vite.config.ts"@), false),
        r matches Ok(plan) ==> answered(*file_exists, path_join(project_dir@, "vite.config.ts"@), true)
            && plan.program@ == "pnpm"@ && plan.args@.map_values(|a: String| a@) == seq![
            "dlx"@,
            "vite"@,
            "dev"@,
        ] && plan.envs@.map_values(|e: (String, String)| (e.0@, e.1@)) == seq![
            ("SOMA_SERVER_SOCK"@, default_soma_server_sock()),
        ] && (plan.cwd matches Some(d) && d@ == project_dir@),
{
    if !is_vite_project(project_dir, file_exists) {
        return Err(SomaError::Unknown { msg: owned("Invalid runtime. Must use Vite") });
    }
    let sock = owned("/tmp/soma-sdk.sock");
    Ok(Typescript::new().start_dev_server_command(project_dir, sock.as_str()))
}

/// The runtime that the matched runtimes determine: none matched gives `None`,
/// one gives it, several are an error.
pub fn pick_runtime(matched: Vec<Runtime>) -> (r: Result<Option<Runtime>, SomaError>)
    ensures
        matched@.len() == 0 ==> r matches Ok(None),
        matched@.len() == 1 ==> (r matches Ok(Some(x)) && x == matched@[0]),
        matched@.len() > 1 ==> r is Err,
{
    if matched.len() == 0 {
        Ok(None)
    } else if matched.len() == 1 {
        Ok(Some(matched[0].clone()))
    } else {
        Err(
            SomaError::Unknown {
                msg: string_of(chars_of("Multiple runtimes matched").as_slice()),
            },
        )
    }
}

/// Determines the runtime of the project in `src_dir` from which files exist.
pub fn determine_runtime_from_dir<F: Fn(String) -> bool>(src_dir: &str, file_exists: &F) -> (r: Result<
    Option<Runtime>,
    SomaError,
>)
    requires
        forall|p: String| call_requires(*file_exists, (p,)),
    ensures
        r is Ok,
        r matches Ok(Some(rt)) ==> rt == Runtime::PnpmV1 && all_files_found(
            *file_exists,
            src_dir@,
            pnpm_v1_files(),
            true,
        ),
        r matches Ok(None) ==> all_files_found(*file_exists, src_dir@, pnpm_v1_files(), false),
{
    let mut matched: Vec<Runtime> = Vec::new();
    let found = validate_runtime_pnpm_v1(src_dir, file_exists);
    let ok = match found {
        Ok(b) => b,
        Err(e) => return Err(e),
    };
    if ok {
        matched.push(Runtime::PnpmV1);
    }
    let r = pick_runtime(matched);
    proof {
        if ok {
            assert(matched@.len() == 1);
        } else {
            assert(matched@.len() == 0);
        }
    }
    r
}

/// There is no free port in the searched range.
#[derive(Debug)]
pub struct NoFreePort;

/// The kind of error that a failed port search reports.
#[derive(Debug, Clone, Copy, PartialEq, Eq, Structural)]
pub enum PortErrorKind {
    /// No address in the range could be bound.
    AddrNotAvailable,
}

impl NoFreePort {
    /// A failed search means that no address was available.
    pub fn kind(&self) -> (r: PortErrorKind)
        ensures
            r == PortErrorKind::AddrNotAvailable,
    {
        PortErrorKind::AddrNotAvailable
    }
}

/// Finds the first port of `start..=end` that `bind` accepts, trying them in order.
pub fn find_free_port_with_bind<F: Fn(u16) -> bool>(start: u16, end: u16, bind: F) -> (r: Result<
    u16,
    NoFreePort,
>)
    requires
        forall|p: u16| start <= p <= end ==> call_requires(bind, (p,)),
    ensures
        r matches Ok(port) ==> start <= port <= end && call_ensures(bind, (port,), true) && (
        forall|q: u16| start <= q < port ==> call_ensures(bind, (q,), false)),
        r is Err ==> forall|q: u16| start <= q <= end ==> call_ensures(bind, (q,), false),
{
    if start > end {
        return Err(NoFreePort);
    }
    let mut port: u16 = start;
    loop
        invariant
            start <= port <= end,
            forall|p: u16| start <= p <= end ==> call_requires(bind, (p,)),
            forall|q: u16| start <= q < port ==> call_ensures(bind, (q,), false),
        decreases end - port,
    {
        if bind(port) {
            return Ok(port);
        }
        if port == end {
            return Err(NoFreePort);
        }
        port = port + 1;
    }
}

/// The guard of the Vite dev server, from the outcome of starting it (which the
/// caller performs): the dev server must have started, since the tool cannot go on
/// without it.
pub fn start_vite_dev_server<G>(started: Option<G>) -> (r: G)
    requires
        started is Some,
    ensures
        started == Some(r),
{
    started.unwrap()
}

} // verus!
