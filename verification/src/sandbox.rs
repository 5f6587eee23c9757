//! Sandboxes: how an agent's command is rewritten so that it runs confined.
//!
//! A provider is made from the configuration; for each run it gives a session, and
//! the session rewrites the command that starts the agent. `local` rewrites
//! nothing, `docker` runs the command in a container and `microsandbox` in a
//! virtual machine. Inside, the project lies at the same path as outside and the
//! home directory belongs to the session alone.

use vstd::prelude::*;
use vstd::string::*;

use crate::collect::duplicate_strings;
use crate::config::{AgentKind, SandboxConfig};
use crate::mounts::{
    declarations, effective, effective_mounts, expand_mount_path, expanded, is_mode, lemma_mount_text_means,
    lemma_mount_text_parts, mount_meaning, mount_text, mount_views, parse_mount, MountOrigin, MountSpec, MountView,
};
use crate::order::{lists_in_order, StringMap};
use crate::paths::{absolute, below, file_name, join_path, last_name};
use crate::text::{begins, cat, cat3, chars_of, push_char, same, split};

verus! {

/// A command, ready to be run.
#[derive(Debug)]
pub struct CommandSpec {
    pub program: String,
    pub args: Vec<String>,
    pub env: StringMap<String>,
    pub cwd: Option<String>,
}

/// The run that a sandbox is prepared for.
#[derive(Debug)]
pub struct SandboxContext<'a> {
    pub project_root: &'a str,
    pub route_glob: &'a str,
    pub agent_kind: AgentKind,
    pub session_id: &'a str,
}

/// Makes sandboxes of one kind.
pub trait SandboxProvider {
    /// The name under which the sandbox is configured.
    fn name(&self) -> &str;
}

/// A sandbox for one run.
pub trait SandboxSession {
    /// Rewrites a command so that it runs in the sandbox.
    fn wrap(&self, spec: CommandSpec) -> Result<CommandSpec, String>;

    /// Where the agent's own records of the session lie on the host, where they can
    /// be found there.
    fn session_store_root(&self) -> Option<String>;

    /// Whether those records are written while the run goes on.
    fn store_is_live(&self) -> (live: bool)
        default_ensures
            live,
    {
        true
    }

    /// The host paths that have to exist, up to the first mount that cannot be
    /// read.
    fn bind_sources(&self) -> (sources: Vec<String>)
        default_ensures
            sources@.len() == 0,
    {
        Vec::new()
    }

    /// Checks the mounts; `present` says for each of the host paths whether it
    /// exists.
    fn validate_mounts(&self, _present: &Vec<bool>) -> (verdict: Result<(), String>)
        default_ensures
            verdict is Ok,
    {
        Ok(())
    }
}

// ---------------------------------------------------------------------------
// No sandbox
// ---------------------------------------------------------------------------

/// Runs commands as they are.
#[derive(Debug)]
pub struct LocalProvider;

impl SandboxProvider for LocalProvider {
    fn name(&self) -> (name: &str)
        ensures
            name@ == "local"@,
    {
        "local"
    }
}

/// A run without a sandbox.
#[derive(Debug)]
pub struct LocalSession {
    /// The home directory on the host.
    pub host_home: Option<String>,
}

impl SandboxSession for LocalSession {
    fn wrap(&self, spec: CommandSpec) -> (wrapped: Result<CommandSpec, String>)
        ensures
            wrapped == Ok::<CommandSpec, String>(spec),
    {
        Ok(spec)
    }

    fn session_store_root(&self) -> (root: Option<String>)
        ensures
            root.deep_view() == self.host_home.deep_view(),
    {
        match &self.host_home {
            Some(home) => Some(home.clone()),
            None => None,
        }
    }
}

// ---------------------------------------------------------------------------
// Arguments
// ---------------------------------------------------------------------------

/// `flag` before each of `values`.
pub open spec fn flagged(flag: Seq<char>, values: Seq<Seq<char>>) -> Seq<Seq<char>>
    decreases values.len(),
{
    if values.len() == 0 {
        Seq::empty()
    } else {
        flagged(flag, values.drop_last()) + seq![flag, values.last()]
    }
}

/// Appends `word`.
fn put(args: &mut Vec<String>, word: &str)
    ensures
        final(args).deep_view() == old(args).deep_view().push(word@),
{
    args.push(word.to_owned());
    assert(args.deep_view() =~= old(args).deep_view().push(word@));
}

/// Appends `flag` and `value`.
fn put_flag(args: &mut Vec<String>, flag: &str, value: &str)
    ensures
        final(args).deep_view() == old(args).deep_view() + seq![flag@, value@],
{
    let ghost before = args.deep_view();
    put(args, flag);
    put(args, value);
    assert(args.deep_view() =~= before + seq![flag@, value@]);
}

/// Appends `flag` before each of `values`.
fn put_flags(args: &mut Vec<String>, flag: &str, values: &Vec<String>)
    ensures
        final(args).deep_view() == old(args).deep_view() + flagged(flag@, values.deep_view()),
{
    let ghost before = args.deep_view();
    let ghost all = values.deep_view();
    let mut i: usize = 0;
    assert(all.take(0) =~= Seq::empty());
    assert(before + flagged(flag@, all.take(0)) =~= before);
    while i < values.len()
        invariant
            all == values.deep_view(),
            i <= values@.len(),
            args.deep_view() == before + flagged(flag@, all.take(i as int)),
        decreases values@.len() - i,
    {
        let ghost next = all.take(i + 1);
        assert(next.drop_last() =~= all.take(i as int));
        assert(next.last() == values@[i as int]@);
        put_flag(args, flag, values[i].as_str());
        assert(args.deep_view() =~= before + flagged(flag@, next));
        i += 1;
    }
    assert(all.take(i as int) =~= all);
}

/// Appends all of `words`.
fn put_all(args: &mut Vec<String>, words: &Vec<String>)
    ensures
        final(args).deep_view() == old(args).deep_view() + words.deep_view(),
{
    let ghost before = args.deep_view();
    let ghost all = words.deep_view();
    let mut i: usize = 0;
    assert(before + all.take(0) =~= before);
    while i < words.len()
        invariant
            all == words.deep_view(),
            i <= words@.len(),
            args.deep_view() == before + all.take(i as int),
        decreases words@.len() - i,
    {
        put(args, words[i].as_str());
        assert(args.deep_view() =~= before + all.take(i + 1));
        i += 1;
    }
    assert(all.take(i as int) =~= all);
}

/// Each variable with its value, in the order of `keys`.
pub open spec fn settings(keys: Seq<Seq<char>>, env: Map<Seq<char>, String>) -> Seq<Seq<char>> {
    Seq::new(keys.len(), |i: int| keys[i] + "="@ + env[keys[i]]@)
}

/// Each variable with its value, in order.
fn settings_of(env: &StringMap<String>) -> (list: Vec<String>)
    ensures
        lists_in_order(env.keys(), env@.dom()),
        list.deep_view() == settings(env.keys(), env@),
{
    let count = env.len();
    let mut list: Vec<String> = Vec::new();
    let mut i: usize = 0;
    while i < count
        invariant
            count == env.keys().len(),
            i == list@.len(),
            i <= count,
            forall|j: int| 0 <= j < i ==> (#[trigger] list@[j])@ == settings(env.keys(), env@)[j],
        decreases count - i,
    {
        list.push(cat3(env.key_at(i).as_str(), "=", env.value_at(i).as_str()));
        i += 1;
    }
    assert(list.deep_view() =~= settings(env.keys(), env@));
    list
}

/// A mount as docker takes it: read-only mounts say so.
pub open spec fn docker_bind(bind: MountView) -> Seq<char> {
    if bind.writable {
        bind.source + ":"@ + bind.target
    } else {
        bind.source + ":"@ + bind.target + ":ro"@
    }
}

/// A mount as microsandbox takes it: every mount says its mode.
pub open spec fn msb_bind(bind: MountView) -> Seq<char> {
    if bind.writable {
        bind.source + ":"@ + bind.target + ":rw"@
    } else {
        bind.source + ":"@ + bind.target + ":ro"@
    }
}

/// Each mount as docker takes it.
pub open spec fn docker_binds(binds: Seq<MountView>) -> Seq<Seq<char>> {
    Seq::new(binds.len(), |i: int| docker_bind(binds[i]))
}

/// Each mount as microsandbox takes it.
pub open spec fn msb_binds(binds: Seq<MountView>) -> Seq<Seq<char>> {
    Seq::new(binds.len(), |i: int| msb_bind(binds[i]))
}

/// Each mount as the runtime takes it; a writable one ends with `writable_suffix`.
fn bind_texts(binds: &Vec<MountSpec>, docker: bool) -> (list: Vec<String>)
    ensures
        list.deep_view() == (if docker {
            docker_binds(mount_views(binds@))
        } else {
            msb_binds(mount_views(binds@))
        }),
{
    let mut list: Vec<String> = Vec::new();
    let mut i: usize = 0;
    while i < binds.len()
        invariant
            i == list@.len(),
            i <= binds@.len(),
            forall|j: int| 0 <= j < i ==> (#[trigger] list@[j])@ == (if docker {
                docker_bind(binds@[j]@)
            } else {
                msb_bind(binds@[j]@)
            }),
        decreases binds@.len() - i,
    {
        let bind = &binds[i];
        let plain = cat3(bind.source.as_str(), ":", bind.target.as_str());
        let text = if !bind.writable {
            plain.concat(":ro")
        } else if docker {
            plain
        } else {
            plain.concat(":rw")
        };
        list.push(text);
        i += 1;
    }
    assert(docker ==> list.deep_view() =~= docker_binds(mount_views(binds@)));
    assert(!docker ==> list.deep_view() =~= msb_binds(mount_views(binds@)));
    list
}

/// The directory that a command runs in: its own, or else the project.
pub open spec fn run_dir(spec: CommandSpec, project_root: Seq<char>) -> Seq<char> {
    match spec.cwd {
        Some(dir) => dir@,
        None => project_root,
    }
}

fn run_dir_of(spec: &CommandSpec, project_root: &str) -> (dir: String)
    ensures
        dir@ == run_dir(*spec, project_root@),
{
    match &spec.cwd {
        Some(dir) => dir.clone(),
        None => project_root.to_owned(),
    }
}

// ---------------------------------------------------------------------------
// Docker
// ---------------------------------------------------------------------------

/// A run in a container.
#[derive(Debug)]
pub struct DockerSession {
    pub image: String,
    pub project_root: String,
    /// The mounts that were declared.
    pub mounts: Vec<(MountOrigin, String)>,
    /// The hosts that may be reached, each with its address.
    pub egress_pins: Vec<(String, String)>,
    /// Where the records of the session are copied to on the host.
    pub session_store: String,
    /// The volume that holds the home directory of the session.
    pub volume: String,
    pub container: String,
    /// The home directory inside the container.
    pub home: String,
    /// The home directory on the host.
    pub host_home: Option<String>,
}

/// Each host with its address, as docker takes it.
pub open spec fn host_pins(pins: Seq<(String, String)>) -> Seq<Seq<char>> {
    Seq::new(pins.len(), |i: int| pins[i].0@ + ":"@ + pins[i].1@)
}

fn host_pin_texts(pins: &Vec<(String, String)>) -> (list: Vec<String>)
    ensures
        list.deep_view() == host_pins(pins@),
{
    let mut list: Vec<String> = Vec::new();
    let mut i: usize = 0;
    while i < pins.len()
        invariant
            i == list@.len(),
            i <= pins@.len(),
            forall|j: int| 0 <= j < i ==> (#[trigger] list@[j])@ == host_pins(pins@)[j],
        decreases pins@.len() - i,
    {
        list.push(cat3(pins[i].0.as_str(), ":", pins[i].1.as_str()));
        i += 1;
    }
    assert(list.deep_view() =~= host_pins(pins@));
    list
}

/// The network of a container: none, or else one without name resolution in which
/// only the allowed hosts have addresses.
pub open spec fn docker_network(pins: Seq<(String, String)>) -> Seq<Seq<char>> {
    if pins.len() == 0 {
        seq!["none"@]
    } else {
        seq!["bridge"@, "--dns"@, "0.0.0.0"@] + flagged("--add-host"@, host_pins(pins))
    }
}

/// The arguments of docker for a run: the network, the project, the session's home
/// volume, the mounts that take effect, the directory, the environment and then the
/// command.
pub open spec fn docker_args(
    session: DockerSession,
    spec: CommandSpec,
    binds: Seq<MountView>,
    keys: Seq<Seq<char>>,
) -> Seq<Seq<char>> {
    seq!["run"@, "--name"@, session.container@, "--init"@, "-i"@, "--network"@] + docker_network(
        session.egress_pins@,
    ) + seq!["-v"@, session.project_root@ + ":"@ + session.project_root@] + seq![
        "-v"@,
        session.volume@ + ":"@ + session.home@,
    ] + flagged("-v"@, docker_binds(binds)) + seq!["-w"@, run_dir(spec, session.project_root@)] + flagged(
        "-e"@,
        settings(keys, spec.env@.insert("HOME"@, session.home)),
    ) + seq![session.image@] + seq![spec.program@] + spec.args.deep_view()
}

/// The mounts that take effect in a session.
pub open spec fn docker_mounts(session: DockerSession) -> Result<Seq<MountView>, Seq<char>> {
    effective(
        declarations(session.mounts@),
        session.project_root@,
        session.host_home.deep_view(),
        session.image@,
    )
}

/// An optional string as a slice.
fn as_deref(text: &Option<String>) -> (slice: Option<&str>)
    ensures
        slice.deep_view() == text.deep_view(),
{
    match text {
        Some(text) => Some(text.as_str()),
        None => None,
    }
}

/// Whether the report at position `i` says that a path is there. A path without a
/// report is not there.
pub open spec fn there(present: Seq<bool>, i: int) -> bool {
    i < present.len() && present[i]
}

/// Checks in order the project and the mounts: each mount has to be readable and
/// its source has to be there.
pub open spec fn mount_check(
    project_root: Seq<char>,
    home: Option<Seq<char>>,
    image: Seq<char>,
    mounts: Seq<(MountOrigin, String)>,
    present: Seq<bool>,
    docker: bool,
) -> Result<(), Seq<char>>
    decreases mounts.len(),
{
    if mounts.len() == 0 {
        if there(present, 0) {
            Ok(())
        } else {
            Err("sandbox project mount source '"@ + project_root + missing_suffix(docker))
        }
    } else {
        match mount_check(project_root, home, image, mounts.drop_last(), present, docker) {
            Err(text) => Err(text),
            Ok(()) => match mount_meaning(mounts.last().1@) {
                Err(cause) => Err(crate::mounts::bad_mount_text(mounts.last().1@, image, cause)),
                Ok(mount) => if there(present, mounts.len() as int) {
                    Ok(())
                } else {
                    Err(
                        "sandbox "@ + mounts.last().0.word() + " mount source '"@ + expanded(
                            mount.source,
                            project_root,
                            home,
                        ) + missing_suffix(docker),
                    )
                },
            },
        }
    }
}

/// How the report of a missing source ends.
pub open spec fn missing_suffix(docker: bool) -> Seq<char> {
    if docker {
        "' does not exist on the host; docker would mount an empty stub (check the path / VM share)"@
    } else {
        "' does not exist on the host (check the path / VM share)"@
    }
}

/// How many of `mounts` can be read before the first that cannot.
pub open spec fn readable_mounts(mounts: Seq<(MountOrigin, String)>) -> int
    decreases mounts.len(),
{
    if mounts.len() == 0 || mount_meaning(mounts[0].1@) is Err {
        0
    } else {
        1 + readable_mounts(mounts.drop_first())
    }
}

/// The host paths that have to exist: the project and the sources of the mounts, up
/// to the first that cannot be read.
pub open spec fn needed_sources(
    project_root: Seq<char>,
    home: Option<Seq<char>>,
    mounts: Seq<(MountOrigin, String)>,
) -> Seq<Seq<char>> {
    seq![project_root] + Seq::new(
        readable_mounts(mounts) as nat,
        |i: int| expanded(mount_meaning(mounts[i].1@)->Ok_0.source, project_root, home),
    )
}

/// Where the first `n` mounts can be read and no more, `n` is what is counted.
proof fn lemma_readable_is(mounts: Seq<(MountOrigin, String)>, n: int)
    requires
        0 <= n <= mounts.len(),
        forall|i: int| 0 <= i < n ==> mount_meaning((#[trigger] mounts[i]).1@) is Ok,
        n < mounts.len() ==> mount_meaning(mounts[n].1@) is Err,
    ensures
        readable_mounts(mounts) == n,
    decreases mounts.len(),
{
    if n > 0 {
        let rest = mounts.drop_first();
        assert forall|i: int| 0 <= i < n - 1 implies mount_meaning((#[trigger] rest[i]).1@) is Ok by {
            assert(rest[i] == mounts[i + 1]);
        }
        lemma_readable_is(rest, n - 1);
    }
}

/// The host paths that have to exist.
fn sources_of(project_root: &str, home: Option<&str>, mounts: &Vec<(MountOrigin, String)>) -> (sources: Vec<String>)
    ensures
        sources.deep_view() == needed_sources(project_root@, home.deep_view(), mounts@),
{
    let mut sources: Vec<String> = Vec::new();
    sources.push(project_root.to_owned());
    let mut i: usize = 0;
    while i < mounts.len()
        invariant
            i <= mounts@.len(),
            sources@.len() == i + 1,
            sources@[0]@ == project_root@,
            forall|j: int| 0 <= j < i ==> mount_meaning((#[trigger] mounts@[j]).1@) is Ok,
            forall|j: int| 0 <= j < i ==> (#[trigger] sources@[j + 1])@ == expanded(
                mount_meaning(mounts@[j].1@)->Ok_0.source,
                project_root@,
                home.deep_view(),
            ),
        decreases mounts@.len() - i,
    {
        match parse_mount(mounts[i].1.as_str()) {
            Ok(mount) => {
                sources.push(expand_mount_path(mount.source.as_str(), project_root, home));
            },
            Err(_) => {
                proof {
                    lemma_readable_is(mounts@, i as int);
                }
                assert(sources.deep_view() =~= needed_sources(project_root@, home.deep_view(), mounts@)) by {
                    assert forall|k: int| 0 < k < sources@.len() implies #[trigger] sources.deep_view()[k]
                        == needed_sources(project_root@, home.deep_view(), mounts@)[k] by {
                        assert(sources@[(k - 1) + 1]@ == sources.deep_view()[k]);
                    }
                }
                return sources;
            },
        }
        i += 1;
    }
    proof {
        lemma_readable_is(mounts@, i as int);
    }
    assert(sources.deep_view() =~= needed_sources(project_root@, home.deep_view(), mounts@)) by {
        assert forall|k: int| 0 < k < sources@.len() implies #[trigger] sources.deep_view()[k]
            == needed_sources(project_root@, home.deep_view(), mounts@)[k] by {
            assert(sources@[(k - 1) + 1]@ == sources.deep_view()[k]);
        }
    }
    sources
}

/// A fault among the first mounts is the fault of all.
proof fn lemma_check_error(
    project_root: Seq<char>,
    home: Option<Seq<char>>,
    image: Seq<char>,
    mounts: Seq<(MountOrigin, String)>,
    present: Seq<bool>,
    docker: bool,
    n: int,
)
    requires
        0 <= n <= mounts.len(),
        mount_check(project_root, home, image, mounts.take(n), present, docker) is Err,
    ensures
        mount_check(project_root, home, image, mounts, present, docker) == mount_check(
            project_root,
            home,
            image,
            mounts.take(n),
            present,
            docker,
        ),
    decreases mounts.len() - n,
{
    if n < mounts.len() {
        assert(mounts.take(n + 1).drop_last() =~= mounts.take(n));
        lemma_check_error(project_root, home, image, mounts, present, docker, n + 1);
    } else {
        assert(mounts.take(n) =~= mounts);
    }
}

/// Checks that every source is present.
fn check_sources(
    project_root: &str,
    home: Option<&str>,
    image: &str,
    mounts: &Vec<(MountOrigin, String)>,
    present: &Vec<bool>,
    docker: bool,
) -> (verdict: Result<(), String>)
    ensures
        match verdict {
            Ok(()) => mount_check(project_root@, home.deep_view(), image@, mounts@, present@, docker) is Ok,
            Err(text) => mount_check(project_root@, home.deep_view(), image@, mounts@, present@, docker) == Err::<
                (),
                Seq<char>,
            >(text@),
        },
{
    let suffix = if docker {
        "' does not exist on the host; docker would mount an empty stub (check the path / VM share)"
    } else {
        "' does not exist on the host (check the path / VM share)"
    };
    assert(suffix@ == missing_suffix(docker));
    assert(mounts@.take(0) =~= Seq::empty());
    if present.len() == 0 || !present[0] {
        proof {
            lemma_check_error(project_root@, home.deep_view(), image@, mounts@, present@, docker, 0);
        }
        return Err(cat3("sandbox project mount source '", project_root, suffix));
    }
    let mut i: usize = 0;
    while i < mounts.len()
        invariant
            i <= mounts@.len(),
            suffix@ == missing_suffix(docker),
            mount_check(project_root@, home.deep_view(), image@, mounts@.take(i as int), present@, docker) is Ok,
        decreases mounts@.len() - i,
    {
        let ghost next = mounts@.take(i + 1);
        assert(next.drop_last() =~= mounts@.take(i as int));
        assert(next.last() == mounts@[i as int]);
        match parse_mount(mounts[i].1.as_str()) {
            Err(cause) => {
                proof {
                    lemma_check_error(project_root@, home.deep_view(), image@, mounts@, present@, docker, i + 1);
                }
                return Err(
                    "invalid mount '".to_owned().concat(mounts[i].1.as_str()).concat("' for sandbox '").concat(
                        image,
                    ).concat("': ").concat(cause.as_str()),
                );
            },
            Ok(mount) => {
                if i + 1 >= present.len() || !present[i + 1] {
                    let source = expand_mount_path(mount.source.as_str(), project_root, home);
                    proof {
                        lemma_check_error(
                            project_root@,
                            home.deep_view(),
                            image@,
                            mounts@,
                            present@,
                            docker,
                            i + 1,
                        );
                    }
                    return Err(
                        "sandbox ".to_owned().concat(mounts[i].0.as_str()).concat(" mount source '").concat(
                            source.as_str(),
                        ).concat(suffix),
                    );
                }
            },
        }
        i += 1;
    }
    assert(mounts@.take(i as int) =~= mounts@);
    Ok(())
}

impl SandboxSession for DockerSession {
    fn wrap(&self, spec: CommandSpec) -> (wrapped: Result<CommandSpec, String>)
        ensures
            match wrapped {
                Err(text) => docker_mounts(*self) == Err::<Seq<MountView>, Seq<char>>(text@),
                Ok(command) => {
                    &&& docker_mounts(*self) is Ok
                    &&& command.program@ == "docker"@
                    &&& command.env@ == Map::<Seq<char>, String>::empty()
                    &&& command.cwd is None
                    &&& exists|keys: Seq<Seq<char>>| #[trigger]
                        lists_in_order(keys, spec.env@.insert("HOME"@, self.home).dom())
                            && command.args.deep_view() == docker_args(*self, spec, docker_mounts(*self)->Ok_0, keys)
                },
            },
    {
        let binds = match effective_mounts(
            &self.mounts,
            self.project_root.as_str(),
            as_deref(&self.host_home),
            self.image.as_str(),
        ) {
            Ok(binds) => binds,
            Err(text) => {
                return Err(text);
            },
        };
        let root = self.project_root.as_str();
        let mut args: Vec<String> = Vec::new();
        put(&mut args, "run");
        put(&mut args, "--name");
        put(&mut args, self.container.as_str());
        put(&mut args, "--init");
        put(&mut args, "-i");
        put(&mut args, "--network");
        let ghost head = seq!["run"@, "--name"@, self.container@, "--init"@, "-i"@, "--network"@];
        assert(args.deep_view() =~= head);
        if self.egress_pins.len() == 0 {
            put(&mut args, "none");
            assert(args.deep_view() =~= head + docker_network(self.egress_pins@));
        } else {
            put(&mut args, "bridge");
            put(&mut args, "--dns");
            put(&mut args, "0.0.0.0");
            assert(args.deep_view() =~= head + seq!["bridge"@, "--dns"@, "0.0.0.0"@]);
            put_flags(&mut args, "--add-host", &host_pin_texts(&self.egress_pins));
            assert(args.deep_view() =~= head + docker_network(self.egress_pins@));
        }
        put_flag(&mut args, "-v", cat3(root, ":", root).as_str());
        put_flag(&mut args, "-v", cat3(self.volume.as_str(), ":", self.home.as_str()).as_str());
        put_flags(&mut args, "-v", &bind_texts(&binds, true));
        put_flag(&mut args, "-w", run_dir_of(&spec, root).as_str());
        let ghost original = spec;
        let mut env = spec.env;
        env.insert("HOME".to_owned(), self.home.clone());
        put_flags(&mut args, "-e", &settings_of(&env));
        let ghost keys = env.keys();
        put(&mut args, self.image.as_str());
        put(&mut args, spec.program.as_str());
        put_all(&mut args, &spec.args);
        assert(args.deep_view() =~= docker_args(*self, original, docker_mounts(*self)->Ok_0, keys));
        assert(lists_in_order(keys, original.env@.insert("HOME"@, self.home).dom()));
        Ok(CommandSpec { program: "docker".to_owned(), args, env: StringMap::new(), cwd: None })
    }

    fn session_store_root(&self) -> (root: Option<String>)
        ensures
            root.deep_view() == Some(self.session_store@),
    {
        Some(self.session_store.clone())
    }

    fn store_is_live(&self) -> (live: bool)
        ensures
            !live,
    {
        false
    }

    fn bind_sources(&self) -> (sources: Vec<String>)
        ensures
            sources.deep_view() == needed_sources(self.project_root@, self.host_home.deep_view(), self.mounts@),
    {
        sources_of(self.project_root.as_str(), as_deref(&self.host_home), &self.mounts)
    }

    fn validate_mounts(&self, present: &Vec<bool>) -> (verdict: Result<(), String>)
        ensures
            match verdict {
                Ok(()) => mount_check(
                    self.project_root@,
                    self.host_home.deep_view(),
                    self.image@,
                    self.mounts@,
                    present@,
                    true,
                ) is Ok,
                Err(text) => mount_check(
                    self.project_root@,
                    self.host_home.deep_view(),
                    self.image@,
                    self.mounts@,
                    present@,
                    true,
                ) == Err::<(), Seq<char>>(text@),
            },
    {
        check_sources(
            self.project_root.as_str(),
            as_deref(&self.host_home),
            self.image.as_str(),
            &self.mounts,
            present,
            true,
        )
    }
}

// ---------------------------------------------------------------------------
// Microsandbox
// ---------------------------------------------------------------------------

/// A run in a virtual machine.
#[derive(Debug)]
pub struct MicrosandboxSession {
    pub image: String,
    pub project_root: String,
    /// The mounts that were declared.
    pub mounts: Vec<(MountOrigin, String)>,
    /// The hosts that may be reached.
    pub egress: Vec<String>,
    /// Where the records of the session are copied to on the host.
    pub session_store: String,
    /// The name of the virtual machine.
    pub sandbox: String,
    /// The home directory inside the virtual machine.
    pub home: String,
    /// The home directory on the host.
    pub host_home: Option<String>,
}

/// A rule for each host that may be reached.
pub open spec fn allow_rules(egress: Seq<String>) -> Seq<Seq<char>> {
    Seq::new(egress.len(), |i: int| "allow@"@ + egress[i]@)
}

fn allow_rule_texts(egress: &Vec<String>) -> (list: Vec<String>)
    ensures
        list.deep_view() == allow_rules(egress@),
{
    let mut list: Vec<String> = Vec::new();
    let mut i: usize = 0;
    while i < egress.len()
        invariant
            i == list@.len(),
            i <= egress@.len(),
            forall|j: int| 0 <= j < i ==> (#[trigger] list@[j])@ == allow_rules(egress@)[j],
        decreases egress@.len() - i,
    {
        list.push(cat("allow@", egress[i].as_str()));
        i += 1;
    }
    assert(list.deep_view() =~= allow_rules(egress@));
    list
}

/// The network of a virtual machine: everything is denied but for the hosts that may
/// be reached.
pub open spec fn msb_network(egress: Seq<String>) -> Seq<Seq<char>> {
    if egress.len() == 0 {
        seq!["--net-default"@, "deny"@]
    } else {
        seq!["--net-default-egress"@, "deny"@] + flagged("--net-rule"@, allow_rules(egress))
    }
}

/// The arguments of microsandbox for a run.
pub open spec fn msb_args(
    session: MicrosandboxSession,
    spec: CommandSpec,
    binds: Seq<MountView>,
    keys: Seq<Seq<char>>,
) -> Seq<Seq<char>> {
    seq!["run"@, "--name"@, session.sandbox@] + msb_network(session.egress@) + seq![
        "--mount-dir"@,
        session.project_root@ + ":"@ + session.project_root@,
    ] + flagged("--mount-dir"@, msb_binds(binds)) + seq!["--workdir"@, run_dir(spec, session.project_root@)]
        + flagged("--env"@, settings(keys, spec.env@.insert("HOME"@, session.home))) + seq![session.image@]
        + seq!["--"@] + seq![spec.program@] + spec.args.deep_view()
}

/// The mounts that take effect in a session.
pub open spec fn msb_mounts(session: MicrosandboxSession) -> Result<Seq<MountView>, Seq<char>> {
    effective(
        declarations(session.mounts@),
        session.project_root@,
        session.host_home.deep_view(),
        session.image@,
    )
}

impl SandboxSession for MicrosandboxSession {
    fn wrap(&self, spec: CommandSpec) -> (wrapped: Result<CommandSpec, String>)
        ensures
            match wrapped {
                Err(text) => msb_mounts(*self) == Err::<Seq<MountView>, Seq<char>>(text@),
                Ok(command) => {
                    &&& msb_mounts(*self) is Ok
                    &&& command.program@ == "msb"@
                    &&& command.env@ == Map::<Seq<char>, String>::empty()
                    &&& command.cwd is None
                    &&& exists|keys: Seq<Seq<char>>| #[trigger]
                        lists_in_order(keys, spec.env@.insert("HOME"@, self.home).dom())
                            && command.args.deep_view() == msb_args(*self, spec, msb_mounts(*self)->Ok_0, keys)
                },
            },
    {
        let binds = match effective_mounts(
            &self.mounts,
            self.project_root.as_str(),
            as_deref(&self.host_home),
            self.image.as_str(),
        ) {
            Ok(binds) => binds,
            Err(text) => {
                return Err(text);
            },
        };
        let root = self.project_root.as_str();
        let mut args: Vec<String> = Vec::new();
        put(&mut args, "run");
        put(&mut args, "--name");
        put(&mut args, self.sandbox.as_str());
        let ghost head = seq!["run"@, "--name"@, self.sandbox@];
        assert(args.deep_view() =~= head);
        if self.egress.len() == 0 {
            put(&mut args, "--net-default");
            put(&mut args, "deny");
            assert(args.deep_view() =~= head + msb_network(self.egress@));
        } else {
            put(&mut args, "--net-default-egress");
            put(&mut args, "deny");
            assert(args.deep_view() =~= head + seq!["--net-default-egress"@, "deny"@]);
            put_flags(&mut args, "--net-rule", &allow_rule_texts(&self.egress));
            assert(args.deep_view() =~= head + msb_network(self.egress@));
        }
        put_flag(&mut args, "--mount-dir", cat3(root, ":", root).as_str());
        put_flags(&mut args, "--mount-dir", &bind_texts(&binds, false));
        put_flag(&mut args, "--workdir", run_dir_of(&spec, root).as_str());
        let ghost original = spec;
        let mut env = spec.env;
        env.insert("HOME".to_owned(), self.home.clone());
        put_flags(&mut args, "--env", &settings_of(&env));
        let ghost keys = env.keys();
        put(&mut args, self.image.as_str());
        put(&mut args, "--");
        put(&mut args, spec.program.as_str());
        put_all(&mut args, &spec.args);
        assert(args.deep_view() =~= msb_args(*self, original, msb_mounts(*self)->Ok_0, keys));
        assert(lists_in_order(keys, original.env@.insert("HOME"@, self.home).dom()));
        Ok(CommandSpec { program: "msb".to_owned(), args, env: StringMap::new(), cwd: None })
    }

    fn session_store_root(&self) -> (root: Option<String>)
        ensures
            root.deep_view() == Some(
                match last_name(self.home@) {
                    Some(name) => below(self.session_store@, name),
                    None => self.session_store@,
                },
            ),
    {
        match file_name(self.home.as_str()) {
            Some(name) => Some(join_path(self.session_store.as_str(), name.as_str())),
            None => Some(self.session_store.clone()),
        }
    }

    fn store_is_live(&self) -> (live: bool)
        ensures
            !live,
    {
        false
    }

    fn bind_sources(&self) -> (sources: Vec<String>)
        ensures
            sources.deep_view() == needed_sources(self.project_root@, self.host_home.deep_view(), self.mounts@),
    {
        sources_of(self.project_root.as_str(), as_deref(&self.host_home), &self.mounts)
    }

    fn validate_mounts(&self, present: &Vec<bool>) -> (verdict: Result<(), String>)
        ensures
            match verdict {
                Ok(()) => mount_check(
                    self.project_root@,
                    self.host_home.deep_view(),
                    self.image@,
                    self.mounts@,
                    present@,
                    false,
                ) is Ok,
                Err(text) => mount_check(
                    self.project_root@,
                    self.host_home.deep_view(),
                    self.image@,
                    self.mounts@,
                    present@,
                    false,
                ) == Err::<(), Seq<char>>(text@),
            },
    {
        check_sources(
            self.project_root.as_str(),
            as_deref(&self.host_home),
            self.image.as_str(),
            &self.mounts,
            present,
            false,
        )
    }
}

// ---------------------------------------------------------------------------
// After a run
// ---------------------------------------------------------------------------

/// Whether `command` runs `program` with `args` and nothing else.
pub open spec fn runs(command: &CommandSpec, program: Seq<char>, args: Seq<Seq<char>>) -> bool {
    &&& command.program@ == program
    &&& command.args.deep_view() == args
    &&& command.env@ == Map::<Seq<char>, String>::empty()
    &&& command.cwd is None
}

/// The command `program a b c`.
fn command3(program: &str, a: &str, b: &str, c: &str) -> (command: CommandSpec)
    ensures
        runs(&command, program@, seq![a@, b@, c@]),
{
    let mut args: Vec<String> = Vec::new();
    put(&mut args, a);
    put(&mut args, b);
    put(&mut args, c);
    assert(args.deep_view() =~= seq![a@, b@, c@]);
    CommandSpec { program: program.to_owned(), args, env: StringMap::new(), cwd: None }
}

impl DockerSession {
    /// The command that copies the records of the session to the host.
    pub fn extract_session_store(&self) -> (command: CommandSpec)
        ensures
            runs(
                &command,
                "docker"@,
                seq!["cp"@, self.container@ + ":"@ + self.home@ + "/."@, self.session_store@],
            ),
    {
        let source = cat3(self.container.as_str(), ":", self.home.as_str()).concat("/.");
        command3("docker", "cp", source.as_str(), self.session_store.as_str())
    }

    /// The commands that remove the container and its volume.
    pub fn teardown(&self) -> (commands: (CommandSpec, CommandSpec))
        ensures
            runs(&commands.0, "docker"@, seq!["rm"@, "-f"@, self.container@]),
            runs(&commands.1, "docker"@, seq!["volume"@, "rm"@, "-f"@, self.volume@]),
    {
        let mut args: Vec<String> = Vec::new();
        put(&mut args, "volume");
        put(&mut args, "rm");
        put(&mut args, "-f");
        put(&mut args, self.volume.as_str());
        assert(args.deep_view() =~= seq!["volume"@, "rm"@, "-f"@, self.volume@]);
        let volume = CommandSpec { program: "docker".to_owned(), args, env: StringMap::new(), cwd: None };
        (command3("docker", "rm", "-f", self.container.as_str()), volume)
    }
}

impl MicrosandboxSession {
    /// The command that copies the records of the session to the host.
    pub fn extract_session_store(&self) -> (command: CommandSpec)
        ensures
            runs(&command, "msb"@, seq!["cp"@, self.sandbox@ + ":"@ + self.home@, self.session_store@]),
    {
        let source = cat3(self.sandbox.as_str(), ":", self.home.as_str());
        command3("msb", "cp", source.as_str(), self.session_store.as_str())
    }

    /// The commands that stop the virtual machine and remove it.
    pub fn teardown(&self) -> (commands: (CommandSpec, CommandSpec))
        ensures
            runs(&commands.0, "msb"@, seq!["stop"@, self.sandbox@]),
            runs(&commands.1, "msb"@, seq!["rm"@, "-f"@, self.sandbox@]),
    {
        let mut args: Vec<String> = Vec::new();
        put(&mut args, "stop");
        put(&mut args, self.sandbox.as_str());
        assert(args.deep_view() =~= seq!["stop"@, self.sandbox@]);
        let stop = CommandSpec { program: "msb".to_owned(), args, env: StringMap::new(), cwd: None };
        (stop, command3("msb", "rm", "-f", self.sandbox.as_str()))
    }
}

// ---------------------------------------------------------------------------
// Providers
// ---------------------------------------------------------------------------

/// Makes containers.
#[derive(Debug)]
pub struct DockerProvider {
    pub name: String,
    pub image: Option<String>,
    pub build: Option<String>,
    pub mounts: Vec<(MountOrigin, String)>,
    pub egress: Vec<String>,
}

/// Makes virtual machines.
#[derive(Debug)]
pub struct MicrosandboxProvider {
    pub name: String,
    pub image: Option<String>,
    pub build: Option<String>,
    pub mounts: Vec<(MountOrigin, String)>,
    pub egress: Vec<String>,
}

/// Stands for a kind of sandbox whose runtime is not there.
#[derive(Debug)]
pub struct StubProvider {
    pub name: String,
    pub primitive: String,
}

/// An optional string where it is not empty.
pub open spec fn nonempty(text: Option<Seq<char>>) -> Option<Seq<char>> {
    match text {
        Some(text) => if text.len() > 0 {
            Some(text)
        } else {
            None
        },
        None => None,
    }
}

fn nonempty_of(text: &Option<String>) -> (kept: Option<String>)
    ensures
        kept.deep_view() == nonempty(text.deep_view()),
{
    match text {
        Some(text) => if text.as_str().is_empty() {
            None
        } else {
            Some(text.clone())
        },
        None => None,
    }
}

/// The mounts of a sandbox and a route without their strings' storage: first those
/// of the sandbox, then those of the route.
pub open spec fn union_of_mounts(config: &SandboxConfig, route_mounts: Seq<Seq<char>>) -> Seq<(MountOrigin, Seq<char>)> {
    Seq::new(config.mounts@.len(), |i: int| (MountOrigin::Sandbox, config.mounts@[i]@)) + Seq::new(
        route_mounts.len(),
        |i: int| (MountOrigin::Route, route_mounts[i]),
    )
}

/// What a list of tagged mounts says.
pub open spec fn tagged(mounts: Seq<(MountOrigin, String)>) -> Seq<(MountOrigin, Seq<char>)> {
    Seq::new(mounts.len(), |i: int| (mounts[i].0, mounts[i].1@))
}

fn union_mounts(config: &SandboxConfig, route_mounts: &Vec<String>) -> (mounts: Vec<(MountOrigin, String)>)
    ensures
        tagged(mounts@) == union_of_mounts(config, route_mounts.deep_view()),
{
    let mut mounts: Vec<(MountOrigin, String)> = Vec::new();
    let mut i: usize = 0;
    while i < config.mounts.len()
        invariant
            i == mounts@.len(),
            i <= config.mounts@.len(),
            forall|j: int| 0 <= j < i ==> (#[trigger] mounts@[j]).0 == MountOrigin::Sandbox && mounts@[j].1@
                == config.mounts@[j]@,
        decreases config.mounts@.len() - i,
    {
        mounts.push((MountOrigin::Sandbox, config.mounts[i].clone()));
        i += 1;
    }
    let ghost own = config.mounts@.len();
    let mut k: usize = 0;
    while k < route_mounts.len()
        invariant
            own == config.mounts@.len(),
            mounts@.len() == own + k,
            k <= route_mounts@.len(),
            forall|j: int| 0 <= j < own ==> (#[trigger] mounts@[j]).0 == MountOrigin::Sandbox && mounts@[j].1@
                == config.mounts@[j]@,
            forall|j: int|
                own <= j < own + k ==> (#[trigger] mounts@[j]).0 == MountOrigin::Route && mounts@[j].1@
                    == route_mounts@[j - own]@,
        decreases route_mounts@.len() - k,
    {
        mounts.push((MountOrigin::Route, route_mounts[k].clone()));
        k += 1;
    }
    assert(tagged(mounts@) =~= union_of_mounts(config, route_mounts.deep_view()));
    mounts
}

/// The report of a sandbox that has nothing to run.
pub open spec fn no_image_text(name: Seq<char>, kind: Seq<char>) -> Seq<char> {
    "sandbox '"@ + name + "' needs an `image` or a `build` path (required for the "@ + kind + " provider)"@
}

/// Whether a sandbox has something to run.
pub open spec fn has_image(config: &SandboxConfig) -> bool {
    nonempty(config.image.deep_view()) is Some || nonempty(config.build.deep_view()) is Some
}

impl DockerProvider {
    /// A provider for the sandbox `name` of the configuration.
    pub fn from_config(name: &str, config: &SandboxConfig, route_mounts: &Vec<String>) -> (provider: Result<Self, String>)
        ensures
            match provider {
                Ok(provider) => {
                    &&& has_image(config)
                    &&& provider.name@ == name@
                    &&& provider.image.deep_view() == nonempty(config.image.deep_view())
                    &&& provider.build.deep_view() == nonempty(config.build.deep_view())
                    &&& tagged(provider.mounts@) == union_of_mounts(config, route_mounts.deep_view())
                    &&& provider.egress.deep_view() == config.egress.deep_view()
                },
                Err(text) => !has_image(config) && text@ == no_image_text(name@, "docker"@),
            },
    {
        let image = nonempty_of(&config.image);
        let build = nonempty_of(&config.build);
        if image.is_none() && build.is_none() {
            return Err(
                "sandbox '".to_owned().concat(name).concat(
                    "' needs an `image` or a `build` path (required for the ",
                ).concat("docker").concat(" provider)"),
            );
        }
        Ok(
            DockerProvider {
                name: name.to_owned(),
                image,
                build,
                mounts: union_mounts(config, route_mounts),
                egress: duplicate_strings(&config.egress),
            },
        )
    }
}

impl MicrosandboxProvider {
    /// A provider for the sandbox `name` of the configuration.
    pub fn from_config(name: &str, config: &SandboxConfig, route_mounts: &Vec<String>) -> (provider: Result<Self, String>)
        ensures
            match provider {
                Ok(provider) => {
                    &&& has_image(config)
                    &&& provider.name@ == name@
                    &&& provider.image.deep_view() == nonempty(config.image.deep_view())
                    &&& provider.build.deep_view() == nonempty(config.build.deep_view())
                    &&& tagged(provider.mounts@) == union_of_mounts(config, route_mounts.deep_view())
                    &&& provider.egress.deep_view() == config.egress.deep_view()
                },
                Err(text) => !has_image(config) && text@ == no_image_text(name@, "microsandbox"@),
            },
    {
        let image = nonempty_of(&config.image);
        let build = nonempty_of(&config.build);
        if image.is_none() && build.is_none() {
            return Err(
                "sandbox '".to_owned().concat(name).concat(
                    "' needs an `image` or a `build` path (required for the ",
                ).concat("microsandbox").concat(" provider)"),
            );
        }
        Ok(
            MicrosandboxProvider {
                name: name.to_owned(),
                image,
                build,
                mounts: union_mounts(config, route_mounts),
                egress: duplicate_strings(&config.egress),
            },
        )
    }
}

impl SandboxProvider for DockerProvider {
    fn name(&self) -> (name: &str)
        ensures
            name@ == self.name@,
    {
        self.name.as_str()
    }
}

impl SandboxProvider for MicrosandboxProvider {
    fn name(&self) -> (name: &str)
        ensures
            name@ == self.name@,
    {
        self.name.as_str()
    }
}

impl SandboxProvider for StubProvider {
    fn name(&self) -> (name: &str)
        ensures
            name@ == self.name@,
    {
        self.name.as_str()
    }
}

/// Where the image of a sandbox comes from.
#[derive(Debug, PartialEq, Eq)]
pub enum ImageSource {
    /// It is built from this Dockerfile.
    Build(String),
    /// It is there under this name.
    Named(String),
}

/// Whether `source` says where an image comes from: a Dockerfile goes before a
/// name.
pub open spec fn image_from(
    name: Seq<char>,
    image: Option<String>,
    build: Option<String>,
    source: Result<ImageSource, String>,
) -> bool {
    match build {
        Some(path) => source matches Ok(ImageSource::Build(file)) && file@ == path@,
        None => match image {
            Some(tag) => source matches Ok(ImageSource::Named(found)) && found@ == tag@,
            None => source matches Err(text) && text@ == "sandbox '"@ + name + "' has neither image nor build"@,
        },
    }
}

fn image_source(name: &str, image: &Option<String>, build: &Option<String>) -> (source: Result<ImageSource, String>)
    ensures
        image_from(name@, *image, *build, source),
{
    match build {
        Some(path) => Ok(ImageSource::Build(path.clone())),
        None => match image {
            Some(tag) => Ok(ImageSource::Named(tag.clone())),
            None => Err(cat3("sandbox '", name, "' has neither image nor build")),
        },
    }
}

/// What a run needs of the host before it can start.
#[derive(Debug)]
pub struct Prepared {
    /// The image, built where it has to be.
    pub image: String,
    /// The directory of all session records.
    pub sessions_root: String,
    /// The home directory on the host.
    pub host_home: Option<String>,
}

/// Whether `c` may stand in the name of a container.
pub open spec fn docker_safe(c: char) -> bool {
    'a' <= c <= 'z' || 'A' <= c <= 'Z' || '0' <= c <= '9' || c == '_' || c == '.' || c == '-'
}

/// `session_id` with a hyphen for each character that may not stand in the name of
/// a container.
pub open spec fn sanitized(session_id: Seq<char>) -> Seq<char> {
    session_id.map_values(
        |c: char|
            if docker_safe(c) {
                c
            } else {
                '-'
            },
    )
}

/// Makes a session's id fit for the name of a container.
pub fn sanitize_docker_name(session_id: &str) -> (name: String)
    ensures
        name@ == sanitized(session_id@),
{
    let chars = chars_of(session_id);
    let mut name = String::new();
    let mut i: usize = 0;
    assert(name@ =~= sanitized(chars@).take(0));
    while i < chars.len()
        invariant
            i <= chars@.len(),
            name@ == sanitized(chars@).take(i as int),
        decreases chars@.len() - i,
    {
        let c = chars[i];
        let safe = ('a' <= c && c <= 'z') || ('A' <= c && c <= 'Z') || ('0' <= c && c <= '9') || c == '_' || c
            == '.' || c == '-';
        push_char(
            &mut name,
            if safe {
                c
            } else {
                '-'
            },
        );
        i += 1;
        assert(name@ =~= sanitized(chars@).take(i as int));
    }
    assert(name@ =~= sanitized(chars@));
    name
}

/// A sanitized name holds nothing but characters that may stand in the name of a
/// container, and names that were fit stay as they are.
pub proof fn law_sanitized_names_are_safe(session_id: Seq<char>)
    ensures
        forall|i: int| 0 <= i < sanitized(session_id).len() ==> docker_safe(#[trigger] sanitized(session_id)[i]),
        (forall|i: int| 0 <= i < session_id.len() ==> docker_safe(#[trigger] session_id[i])) ==> sanitized(
            session_id,
        ) == session_id,
{
    if forall|i: int| 0 <= i < session_id.len() ==> docker_safe(#[trigger] session_id[i]) {
        assert(sanitized(session_id) =~= session_id);
    }
}

/// The name of the container and the volume of a session.
pub open spec fn box_name(session_id: Seq<char>) -> Seq<char> {
    "varda-sbx-"@ + sanitized(session_id)
}

fn duplicate_mounts(mounts: &Vec<(MountOrigin, String)>) -> (copy: Vec<(MountOrigin, String)>)
    ensures
        tagged(copy@) == tagged(mounts@),
{
    let mut copy: Vec<(MountOrigin, String)> = Vec::new();
    let mut i: usize = 0;
    while i < mounts.len()
        invariant
            i == copy@.len(),
            i <= mounts@.len(),
            forall|j: int| 0 <= j < i ==> (#[trigger] copy@[j]).0 == mounts@[j].0 && copy@[j].1@ == mounts@[j].1@,
        decreases mounts@.len() - i,
    {
        copy.push((mounts[i].0, mounts[i].1.clone()));
        i += 1;
    }
    assert(tagged(copy@) =~= tagged(mounts@));
    copy
}

impl DockerProvider {
    /// Where the image comes from.
    pub fn resolve_image(&self) -> (source: Result<ImageSource, String>)
        ensures
            image_from(self.name@, self.image, self.build, source),
    {
        image_source(self.name.as_str(), &self.image, &self.build)
    }

    /// The session for a run. `egress_pins` gives the address of each host that may
    /// be reached.
    pub fn prepare(&self, ctx: &SandboxContext<'_>, egress_pins: Vec<(String, String)>, ready: Prepared) -> (session: DockerSession)
        ensures
            session.image == ready.image,
            session.project_root@ == ctx.project_root@,
            tagged(session.mounts@) == tagged(self.mounts@),
            session.egress_pins == egress_pins,
            session.session_store@ == below(ready.sessions_root@, ctx.session_id@),
            session.volume@ == box_name(ctx.session_id@),
            session.container@ == box_name(ctx.session_id@),
            session.home@ == "/home/agent"@,
            session.host_home == ready.host_home,
    {
        let name = cat("varda-sbx-", sanitize_docker_name(ctx.session_id).as_str());
        DockerSession {
            image: ready.image,
            project_root: ctx.project_root.to_owned(),
            mounts: duplicate_mounts(&self.mounts),
            egress_pins,
            session_store: join_path(ready.sessions_root.as_str(), ctx.session_id),
            volume: name.clone(),
            container: name,
            home: "/home/agent".to_owned(),
            host_home: ready.host_home,
        }
    }
}

impl MicrosandboxProvider {
    /// Where the image comes from.
    pub fn resolve_image(&self) -> (source: Result<ImageSource, String>)
        ensures
            image_from(self.name@, self.image, self.build, source),
    {
        image_source(self.name.as_str(), &self.image, &self.build)
    }

    /// The session for a run.
    pub fn prepare(&self, ctx: &SandboxContext<'_>, ready: Prepared) -> (session: MicrosandboxSession)
        ensures
            session.image == ready.image,
            session.project_root@ == ctx.project_root@,
            tagged(session.mounts@) == tagged(self.mounts@),
            session.egress.deep_view() == self.egress.deep_view(),
            session.session_store@ == below(ready.sessions_root@, ctx.session_id@),
            session.sandbox@ == box_name(ctx.session_id@),
            session.home@ == "/home/agent"@,
            session.host_home == ready.host_home,
    {
        MicrosandboxSession {
            image: ready.image,
            project_root: ctx.project_root.to_owned(),
            mounts: duplicate_mounts(&self.mounts),
            egress: duplicate_strings(&self.egress),
            session_store: join_path(ready.sessions_root.as_str(), ctx.session_id),
            sandbox: cat("varda-sbx-", sanitize_docker_name(ctx.session_id).as_str()),
            home: "/home/agent".to_owned(),
            host_home: ready.host_home,
        }
    }
}

impl StubProvider {
    /// Reports that the runtime is not there.
    pub fn prepare(&self) -> (session: Result<LocalSession, String>)
        ensures
            session matches Err(text) && text@ == "sandbox primitive '"@ + self.primitive@
                + "' not yet available: runtime not installed"@,
    {
        Err(
            cat3("sandbox primitive '", self.primitive.as_str(), "' not yet available: runtime not installed"),
        )
    }
}

/// The directory of all session records: below `VARDA_HOME`, or else below
/// `.varda` in the home directory, or else below `.varda` here.
pub open spec fn sessions_root(varda_home: Option<Seq<char>>, home: Option<Seq<char>>) -> Seq<char> {
    let base = match nonempty(varda_home) {
        Some(dir) => dir,
        None => match home {
            Some(home) => below(home, ".varda"@),
            None => ".varda"@,
        },
    };
    below(base, "sessions"@)
}

/// The directory of all session records, by the environment.
pub fn varda_sessions_root(varda_home: Option<&str>, home: Option<&str>) -> (root: String)
    ensures
        root@ == sessions_root(varda_home.deep_view(), home.deep_view()),
{
    if let Some(dir) = varda_home {
        if !dir.is_empty() {
            return join_path(dir, "sessions");
        }
    }
    match home {
        Some(home) => join_path(join_path(home, ".varda").as_str(), "sessions"),
        None => join_path(".varda", "sessions"),
    }
}

/// A provider of any kind.
#[derive(Debug)]
pub enum Provider {
    Local(LocalProvider),
    Docker(DockerProvider),
    Microsandbox(MicrosandboxProvider),
    Stub(StubProvider),
}

impl SandboxProvider for Provider {
    fn name(&self) -> (name: &str)
        ensures
            name@ == self.name_spec(),
    {
        match self {
            Provider::Local(provider) => provider.name(),
            Provider::Docker(provider) => provider.name(),
            Provider::Microsandbox(provider) => provider.name(),
            Provider::Stub(provider) => provider.name(),
        }
    }
}

impl Provider {
    /// The name under which the sandbox is configured.
    pub open spec fn name_spec(&self) -> Seq<char> {
        match *self {
            Provider::Local(_) => "local"@,
            Provider::Docker(provider) => provider.name@,
            Provider::Microsandbox(provider) => provider.name@,
            Provider::Stub(provider) => provider.name@,
        }
    }
}

/// Whether `provider` is what the sandbox `name` of the configuration calls for.
pub open spec fn provides(
    name: Seq<char>,
    sandboxes: Map<Seq<char>, SandboxConfig>,
    route_mounts: Seq<Seq<char>>,
    provider: Result<Provider, String>,
) -> bool {
    if !sandboxes.dom().contains(name) {
        if name == "local"@ {
            provider matches Ok(Provider::Local(_))
        } else {
            provider matches Err(text) && text@ == "sandbox '"@ + name + "' is not defined under [sandboxes]"@
        }
    } else {
        let config = sandboxes[name];
        if config.primitive@ == "local"@ {
            provider matches Ok(Provider::Local(_))
        } else if config.primitive@ == "docker"@ {
            if has_image(&config) {
                provider matches Ok(Provider::Docker(made)) && {
                    &&& made.name@ == name
                    &&& made.image.deep_view() == nonempty(config.image.deep_view())
                    &&& made.build.deep_view() == nonempty(config.build.deep_view())
                    &&& tagged(made.mounts@) == union_of_mounts(&config, route_mounts)
                    &&& made.egress.deep_view() == config.egress.deep_view()
                }
            } else {
                provider matches Err(text) && text@ == no_image_text(name, "docker"@)
            }
        } else if config.primitive@ == "microsandbox"@ {
            if has_image(&config) {
                provider matches Ok(Provider::Microsandbox(made)) && {
                    &&& made.name@ == name
                    &&& made.image.deep_view() == nonempty(config.image.deep_view())
                    &&& made.build.deep_view() == nonempty(config.build.deep_view())
                    &&& tagged(made.mounts@) == union_of_mounts(&config, route_mounts)
                    &&& made.egress.deep_view() == config.egress.deep_view()
                }
            } else {
                provider matches Err(text) && text@ == no_image_text(name, "microsandbox"@)
            }
        } else if config.primitive@ == "clawk"@ {
            provider matches Ok(Provider::Stub(made)) && made.name@ == name && made.primitive@
                == config.primitive@
        } else {
            provider matches Err(text) && text@ == "sandbox '"@ + name + "' has unknown primitive '"@
                + config.primitive@ + "' (expected local, docker, microsandbox, or clawk)"@
        }
    }
}

/// The provider for the sandbox `name` of the configuration.
pub fn provider_for(name: &str, sandboxes: &StringMap<SandboxConfig>, route_mounts: &Vec<String>) -> (provider: Result<
    Provider,
    String,
>)
    ensures
        provides(name@, sandboxes@, route_mounts.deep_view(), provider),
{
    match sandboxes.get(name) {
        Some(config) => {
            let primitive = config.primitive.as_str();
            if same(primitive, "local") {
                Ok(Provider::Local(LocalProvider))
            } else if same(primitive, "docker") {
                match DockerProvider::from_config(name, config, route_mounts) {
                    Ok(provider) => Ok(Provider::Docker(provider)),
                    Err(text) => Err(text),
                }
            } else if same(primitive, "microsandbox") {
                match MicrosandboxProvider::from_config(name, config, route_mounts) {
                    Ok(provider) => Ok(Provider::Microsandbox(provider)),
                    Err(text) => Err(text),
                }
            } else if same(primitive, "clawk") {
                Ok(
                    Provider::Stub(
                        StubProvider { name: name.to_owned(), primitive: config.primitive.clone() },
                    ),
                )
            } else {
                Err(
                    "sandbox '".to_owned().concat(name).concat("' has unknown primitive '").concat(
                        primitive,
                    ).concat("' (expected local, docker, microsandbox, or clawk)"),
                )
            }
        },
        None => if same(name, "local") {
            Ok(Provider::Local(LocalProvider))
        } else {
            Err(cat3("sandbox '", name, "' is not defined under [sandboxes]"))
        },
    }
}

// ---------------------------------------------------------------------------
// Laws
// ---------------------------------------------------------------------------

/// Without an allow-list a container has no network and a virtual machine is denied
/// all of it.
pub proof fn law_no_allow_list_means_no_network(
    docker: DockerSession,
    msb: MicrosandboxSession,
    spec: CommandSpec,
    binds: Seq<MountView>,
    keys: Seq<Seq<char>>,
)
    requires
        docker.egress_pins@.len() == 0,
        msb.egress@.len() == 0,
    ensures
        docker_args(docker, spec, binds, keys).subrange(5, 7) == seq!["--network"@, "none"@],
        msb_args(msb, spec, binds, keys).subrange(3, 5) == seq!["--net-default"@, "deny"@],
{
    assert(docker_args(docker, spec, binds, keys).subrange(5, 7) =~= seq!["--network"@, "none"@]);
    assert(msb_args(msb, spec, binds, keys).subrange(3, 5) =~= seq!["--net-default"@, "deny"@]);
}

/// Whatever the command asks for, the home directory inside a sandbox is the
/// session's own.
pub proof fn law_home_is_the_sessions_own(spec: CommandSpec, home: String, keys: Seq<Seq<char>>)
    requires
        lists_in_order(keys, spec.env@.insert("HOME"@, home).dom()),
    ensures
        settings(keys, spec.env@.insert("HOME"@, home)).contains("HOME"@ + "="@ + home@),
{
    let env = spec.env@.insert("HOME"@, home);
    assert(env.dom().contains("HOME"@));
    assert(keys.contains("HOME"@));
    let i = choose|i: int| 0 <= i < keys.len() && keys[i] == "HOME"@;
    assert(settings(keys, env)[i] == "HOME"@ + "="@ + home@);
}

/// The command itself comes last and unchanged: nothing of it is read by the
/// runtime.
pub proof fn law_command_is_kept(
    docker: DockerSession,
    msb: MicrosandboxSession,
    spec: CommandSpec,
    binds: Seq<MountView>,
    keys: Seq<Seq<char>>,
)
    ensures
        (seq![docker.image@, spec.program@] + spec.args.deep_view()).is_suffix_of(
            docker_args(docker, spec, binds, keys),
        ),
        (seq![msb.image@, "--"@, spec.program@] + spec.args.deep_view()).is_suffix_of(
            msb_args(msb, spec, binds, keys),
        ),
{
    let tail = seq![docker.image@, spec.program@] + spec.args.deep_view();
    let all = docker_args(docker, spec, binds, keys);
    assert(all.subrange(all.len() - tail.len(), all.len() as int) =~= tail);
    let msb_tail = seq![msb.image@, "--"@, spec.program@] + spec.args.deep_view();
    let msb_all = msb_args(msb, spec, binds, keys);
    assert(msb_all.subrange(msb_all.len() - msb_tail.len(), msb_all.len() as int) =~= msb_tail);
}

// ---------------------------------------------------------------------------
// Laws of the arguments
// ---------------------------------------------------------------------------

/// Each value has two places.
proof fn lemma_flagged(flag: Seq<char>, values: Seq<Seq<char>>)
    ensures
        flagged(flag, values).len() == 2 * values.len(),
    decreases values.len(),
{
    if values.len() > 0 {
        lemma_flagged(flag, values.drop_last());
    }
}

/// Before each value stands its flag.
proof fn lemma_flagged_pair(flag: Seq<char>, values: Seq<Seq<char>>, i: int)
    requires
        0 <= i < values.len(),
    ensures
        flagged(flag, values).len() == 2 * values.len(),
        flagged(flag, values)[2 * i] == flag,
        flagged(flag, values)[2 * i + 1] == values[i],
    decreases values.len(),
{
    let front = values.drop_last();
    lemma_flagged(flag, front);
    lemma_flagged(flag, values);
    let last = seq![flag, values.last()];
    assert(flagged(flag, values) == flagged(flag, front) + last);
    if i < front.len() {
        lemma_flagged_pair(flag, front, i);
        assert(front[i] == values[i]);
    } else {
        assert(last[0] == flag && last[1] == values[i]);
    }
}

/// Whether `section` stands in `args` at position `at`.
pub open spec fn section_at(args: Seq<Seq<char>>, at: int, section: Seq<Seq<char>>) -> bool {
    0 <= at <= args.len() - section.len() && args.subrange(at, at + section.len()) == section
}

/// Whether `flag` stands before `value` at position `at` of `args`.
pub open spec fn flag_at(args: Seq<Seq<char>>, at: int, flag: Seq<char>, value: Seq<char>) -> bool {
    0 <= at < args.len() - 1 && args[at] == flag && args[at + 1] == value
}

/// What stands at a position stands there word by word.
proof fn lemma_word_at(args: Seq<Seq<char>>, at: int, section: Seq<Seq<char>>, i: int)
    requires
        section_at(args, at, section),
        0 <= i < section.len(),
    ensures
        0 <= at + i < args.len(),
        args[at + i] == section[i],
{
    assert(args.subrange(at, at + section.len())[i] == section[i]);
}

/// A flag of a section stands in the arguments.
proof fn lemma_flag_at(args: Seq<Seq<char>>, at: int, flag: Seq<char>, values: Seq<Seq<char>>, i: int)
    requires
        section_at(args, at, flagged(flag, values)),
        0 <= i < values.len(),
    ensures
        flag_at(args, at + 2 * i, flag, values[i]),
{
    lemma_flagged_pair(flag, values, i);
    lemma_word_at(args, at, flagged(flag, values), 2 * i);
    lemma_word_at(args, at, flagged(flag, values), 2 * i + 1);
}

/// A flag and its value stand in the arguments.
proof fn lemma_pair_at(args: Seq<Seq<char>>, at: int, flag: Seq<char>, value: Seq<char>)
    requires
        section_at(args, at, seq![flag, value]),
    ensures
        flag_at(args, at, flag, value),
{
    lemma_word_at(args, at, seq![flag, value], 0);
    lemma_word_at(args, at, seq![flag, value], 1);
}

/// The sections of a list stand one after the other.
proof fn lemma_sections(
    a: Seq<Seq<char>>,
    b: Seq<Seq<char>>,
    c: Seq<Seq<char>>,
    d: Seq<Seq<char>>,
    e: Seq<Seq<char>>,
    f: Seq<Seq<char>>,
    g: Seq<Seq<char>>,
)
    ensures
        ({
            let all = a + b + c + d + e + f + g;
            &&& all.len() == a.len() + b.len() + c.len() + d.len() + e.len() + f.len() + g.len()
            &&& section_at(all, 0, a)
            &&& section_at(all, a.len() as int, b)
            &&& section_at(all, (a.len() + b.len()) as int, c)
            &&& section_at(all, (a.len() + b.len() + c.len()) as int, d)
            &&& section_at(all, (a.len() + b.len() + c.len() + d.len()) as int, e)
            &&& section_at(all, (a.len() + b.len() + c.len() + d.len() + e.len()) as int, f)
            &&& section_at(all, (a.len() + b.len() + c.len() + d.len() + e.len() + f.len()) as int, g)
        }),
{
    let all = a + b + c + d + e + f + g;
    let pb = a.len() as int;
    let pc = pb + b.len();
    let pd = pc + c.len();
    let pe = pd + d.len();
    let pf = pe + e.len();
    let pg = pf + f.len();
    assert(all.subrange(0, pb) =~= a);
    assert(all.subrange(pb, pc) =~= b);
    assert(all.subrange(pc, pd) =~= c);
    assert(all.subrange(pd, pe) =~= d);
    assert(all.subrange(pe, pf) =~= e);
    assert(all.subrange(pf, pg) =~= f);
    assert(all.subrange(pg, pg + g.len()) =~= g);
}

/// Whether each variable of `env` stands after `flag` with its value, from position `at` of
/// `args` up to `end`, in order of their names.
pub open spec fn environment_at(
    args: Seq<Seq<char>>,
    at: int,
    end: int,
    flag: Seq<char>,
    env: Map<Seq<char>, String>,
) -> bool {
    exists|keys: Seq<Seq<char>>| #[trigger]
        lists_in_order(keys, env.dom()) && end == at + 2 * keys.len() && forall|i: int|
            0 <= i < keys.len() ==> flag_at(args, at + 2 * i, flag, #[trigger] keys[i] + "="@ + env[keys[i]]@)
}

/// The settings of an environment stand in the arguments.
proof fn lemma_environment_at(
    args: Seq<Seq<char>>,
    at: int,
    flag: Seq<char>,
    keys: Seq<Seq<char>>,
    env: Map<Seq<char>, String>,
)
    requires
        lists_in_order(keys, env.dom()),
        section_at(args, at, flagged(flag, settings(keys, env))),
    ensures
        environment_at(args, at, at + 2 * keys.len(), flag, env),
{
    let set = settings(keys, env);
    assert forall|i: int| 0 <= i < keys.len() implies flag_at(
        args,
        at + 2 * i,
        flag,
        #[trigger] keys[i] + "="@ + env[keys[i]]@,
    ) by {
        lemma_flag_at(args, at, flag, set, i);
        assert(set[i] == keys[i] + "="@ + env[keys[i]]@);
    }
}

/// The mounts that take effect in a session.
pub open spec fn mounts_in_effect(
    mounts: Seq<(MountOrigin, String)>,
    project_root: Seq<char>,
    home: Option<Seq<char>>,
    image: Seq<char>,
) -> Seq<MountView> {
    effective(declarations(mounts), project_root, home, image)->Ok_0
}

/// The text of a mount that says its mode.
pub open spec fn with_mode(bind: MountView) -> Seq<char> {
    bind.source + ":"@ + bind.target + ":"@ + if bind.writable {
        "rw"@
    } else {
        "ro"@
    }
}

/// The sections of the arguments of microsandbox.
proof fn lemma_msb_sections(session: &MicrosandboxSession, spec: CommandSpec, command: CommandSpec) -> (keys: Seq<
    Seq<char>,
>)
    requires
        call_ensures(<MicrosandboxSession as SandboxSession>::wrap, (session, spec), Ok(command)),
    ensures
        ({
            let args = command.args.deep_view();
            let root = session.project_root@;
            let binds = mounts_in_effect(session.mounts@, root, session.host_home.deep_view(), session.image@);
            let env = spec.env@.insert("HOME"@, session.home);
            let at_mounts: int = 5 + 2 * session.egress@.len() as int;
            let at_dir: int = at_mounts + 2 + 2 * binds.len() as int;
            let at_image: int = at_dir + 2 + 2 * keys.len() as int;
            &&& lists_in_order(keys, env.dom())
            &&& args.len() == at_image + 3 + spec.args@.len()
            &&& section_at(args, 0, seq!["run"@, "--name"@, session.sandbox@])
            &&& section_at(args, 3, msb_network(session.egress@))
            &&& section_at(args, at_mounts, seq!["--mount-dir"@, root + ":"@ + root])
            &&& section_at(args, at_mounts + 2, flagged("--mount-dir"@, msb_binds(binds)))
            &&& section_at(args, at_dir, seq!["--workdir"@, run_dir(spec, root)])
            &&& section_at(args, at_dir + 2, flagged("--env"@, settings(keys, env)))
            &&& section_at(args, at_image, seq![session.image@, "--"@, spec.program@] + spec.args.deep_view())
        }),
{
    let args = command.args.deep_view();
    let root = session.project_root@;
    let binds = msb_mounts(*session)->Ok_0;
    let env = spec.env@.insert("HOME"@, session.home);
    let keys = choose|keys: Seq<Seq<char>>| #[trigger]
        lists_in_order(keys, env.dom()) && args == msb_args(*session, spec, binds, keys);
    let net = msb_network(session.egress@);
    let head = seq!["run"@, "--name"@, session.sandbox@];
    let project = seq!["--mount-dir"@, root + ":"@ + root];
    let mounts = flagged("--mount-dir"@, msb_binds(binds));
    let dir = seq!["--workdir"@, run_dir(spec, root)];
    let set = flagged("--env"@, settings(keys, env));
    let tail = seq![session.image@, "--"@, spec.program@] + spec.args.deep_view();
    lemma_flagged("--net-rule"@, allow_rules(session.egress@));
    lemma_flagged("--mount-dir"@, msb_binds(binds));
    lemma_flagged("--env"@, settings(keys, env));
    lemma_sections(head, net, project, mounts, dir, set, tail);
    let front = head + net + project + mounts + dir + set;
    assert(front + seq![session.image@] + seq!["--"@] + seq![spec.program@] + spec.args.deep_view() =~= front + tail);
    keys
}

/// A virtual machine is named, and it is denied every host but those that may be reached.
pub proof fn law_microsandbox_network(session: &MicrosandboxSession, spec: CommandSpec, command: CommandSpec)
    requires
        call_ensures(<MicrosandboxSession as SandboxSession>::wrap, (session, spec), Ok(command)),
    ensures
        ({
            let args = command.args.deep_view();
            &&& command.program@ == "msb"@
            &&& command.env@ == Map::<Seq<char>, String>::empty()
            &&& command.cwd is None
            &&& args.len() > 5
            &&& args[0] == "run"@
            &&& flag_at(args, 1, "--name"@, session.sandbox@)
            &&& session.egress@.len() == 0 ==> flag_at(args, 3, "--net-default"@, "deny"@)
            &&& session.egress@.len() > 0 ==> flag_at(args, 3, "--net-default-egress"@, "deny"@)
            &&& forall|i: int|
                0 <= i < session.egress@.len() ==> flag_at(
                    args,
                    5 + 2 * i,
                    "--net-rule"@,
                    "allow@"@ + (#[trigger] session.egress@[i])@,
                )
        }),
{
    let args = command.args.deep_view();
    let keys = lemma_msb_sections(session, spec, command);
    let head = seq!["run"@, "--name"@, session.sandbox@];
    let net = msb_network(session.egress@);
    lemma_word_at(args, 0, head, 0);
    lemma_word_at(args, 0, head, 1);
    lemma_word_at(args, 0, head, 2);
    lemma_word_at(args, 3, net, 0);
    lemma_word_at(args, 3, net, 1);
    let rules = allow_rules(session.egress@);
    lemma_flagged("--net-rule"@, rules);
    assert forall|i: int| 0 <= i < session.egress@.len() implies flag_at(
        args,
        5 + 2 * i,
        "--net-rule"@,
        "allow@"@ + (#[trigger] session.egress@[i])@,
    ) by {
        assert(rules[i] == "allow@"@ + session.egress@[i]@);
        lemma_flagged_pair("--net-rule"@, rules, i);
        assert(net[2 + 2 * i] == flagged("--net-rule"@, rules)[2 * i]);
        assert(net[3 + 2 * i] == flagged("--net-rule"@, rules)[2 * i + 1]);
        lemma_word_at(args, 3, net, 2 + 2 * i);
        lemma_word_at(args, 3, net, 3 + 2 * i);
    }
}

/// A virtual machine has the project at its own path, and then every mount that takes
/// effect, its source at its target and writable or not as it was declared.
pub proof fn law_microsandbox_mounts(session: &MicrosandboxSession, spec: CommandSpec, command: CommandSpec)
    requires
        call_ensures(<MicrosandboxSession as SandboxSession>::wrap, (session, spec), Ok(command)),
    ensures
        ({
            let args = command.args.deep_view();
            let root = session.project_root@;
            let binds = mounts_in_effect(session.mounts@, root, session.host_home.deep_view(), session.image@);
            let at: int = 5 + 2 * session.egress@.len() as int;
            &&& flag_at(args, at, "--mount-dir"@, root + ":"@ + root)
            &&& forall|i: int|
                0 <= i < binds.len() ==> flag_at(
                    args,
                    at + 2 + 2 * i,
                    "--mount-dir"@,
                    (#[trigger] binds[i]).source + ":"@ + binds[i].target + ":"@ + if binds[i].writable {
                        "rw"@
                    } else {
                        "ro"@
                    },
                )
        }),
{
    let args = command.args.deep_view();
    let root = session.project_root@;
    let binds = msb_mounts(*session)->Ok_0;
    let at: int = 5 + 2 * session.egress@.len() as int;
    let keys = lemma_msb_sections(session, spec, command);
    lemma_pair_at(args, at, "--mount-dir"@, root + ":"@ + root);
    let texts = msb_binds(binds);
    assert forall|i: int| 0 <= i < binds.len() implies flag_at(
        args,
        at + 2 + 2 * i,
        "--mount-dir"@,
        with_mode(#[trigger] binds[i]),
    ) by {
        lemma_mode_text(binds[i]);
        lemma_flag_at(args, at + 2, "--mount-dir"@, texts, i);
        assert(texts[i] == msb_bind(binds[i]));
    }
}

/// A mount says its mode after a colon.
proof fn lemma_mode_text(bind: MountView)
    ensures
        msb_bind(bind) == with_mode(bind),
        !bind.writable ==> docker_bind(bind) == with_mode(bind),
{
    reveal_strlit(":rw");
    reveal_strlit(":ro");
    reveal_strlit("rw");
    reveal_strlit("ro");
    reveal_strlit(":");
    assert(msb_bind(bind) =~= with_mode(bind));
    assert(!bind.writable ==> docker_bind(bind) =~= with_mode(bind));
}

/// A command in a virtual machine runs in its own directory, or else in the project, with
/// its environment, in which the home directory is the session's own; it comes last, after
/// the image, with all its arguments. The arguments hold nothing else.
pub proof fn law_microsandbox_command(session: &MicrosandboxSession, spec: CommandSpec, command: CommandSpec)
    requires
        call_ensures(<MicrosandboxSession as SandboxSession>::wrap, (session, spec), Ok(command)),
    ensures
        ({
            let args = command.args.deep_view();
            let root = session.project_root@;
            let binds = mounts_in_effect(session.mounts@, root, session.host_home.deep_view(), session.image@);
            let at_dir: int = 5 + 2 * session.egress@.len() as int + 2 + 2 * binds.len() as int;
            let at_image = args.len() - spec.args@.len() - 3;
            &&& flag_at(
                args,
                at_dir,
                "--workdir"@,
                if spec.cwd is Some {
                    spec.cwd->0@
                } else {
                    root
                },
            )
            &&& environment_at(args, at_dir + 2, at_image, "--env"@, spec.env@.insert("HOME"@, session.home))
            &&& args[at_image] == session.image@
            &&& args[at_image + 1] == "--"@
            &&& args[at_image + 2] == spec.program@
            &&& forall|i: int| 0 <= i < spec.args@.len() ==> args[at_image + 3 + i] == (#[trigger] spec.args@[i])@
        }),
{
    let args = command.args.deep_view();
    let root = session.project_root@;
    let binds = msb_mounts(*session)->Ok_0;
    let env = spec.env@.insert("HOME"@, session.home);
    let at_dir: int = 5 + 2 * session.egress@.len() as int + 2 + 2 * binds.len() as int;
    let keys = lemma_msb_sections(session, spec, command);
    let at_image: int = at_dir + 2 + 2 * keys.len() as int;
    lemma_pair_at(args, at_dir, "--workdir"@, run_dir(spec, root));
    lemma_environment_at(args, at_dir + 2, "--env"@, keys, env);
    let tail = seq![session.image@, "--"@, spec.program@] + spec.args.deep_view();
    lemma_word_at(args, at_image, tail, 0);
    lemma_word_at(args, at_image, tail, 1);
    lemma_word_at(args, at_image, tail, 2);
    assert forall|i: int| 0 <= i < spec.args@.len() implies args[at_image + 3 + i] == (#[trigger] spec.args@[i])@ by {
        lemma_word_at(args, at_image, tail, 3 + i);
        assert(tail[3 + i] == spec.args.deep_view()[i]);
    }
}

/// Where the mounts of a container begin among the arguments.
pub open spec fn docker_mounts_at(session: &DockerSession) -> int {
    if session.egress_pins@.len() == 0 {
        7
    } else {
        9 + 2 * session.egress_pins@.len() as int
    }
}

/// The sections of the arguments of docker.
proof fn lemma_docker_sections(session: &DockerSession, spec: CommandSpec, command: CommandSpec) -> (keys: Seq<
    Seq<char>,
>)
    requires
        call_ensures(<DockerSession as SandboxSession>::wrap, (session, spec), Ok(command)),
    ensures
        ({
            let args = command.args.deep_view();
            let root = session.project_root@;
            let binds = mounts_in_effect(session.mounts@, root, session.host_home.deep_view(), session.image@);
            let env = spec.env@.insert("HOME"@, session.home);
            let at_mounts = docker_mounts_at(session);
            let at_dir: int = at_mounts + 4 + 2 * binds.len() as int;
            let at_image: int = at_dir + 2 + 2 * keys.len() as int;
            &&& lists_in_order(keys, env.dom())
            &&& args.len() == at_image + 2 + spec.args@.len()
            &&& section_at(args, 0, seq!["run"@, "--name"@, session.container@, "--init"@, "-i"@, "--network"@])
            &&& section_at(args, 6, docker_network(session.egress_pins@))
            &&& section_at(
                args,
                at_mounts,
                seq!["-v"@, root + ":"@ + root, "-v"@, session.volume@ + ":"@ + session.home@],
            )
            &&& section_at(args, at_mounts + 4, flagged("-v"@, docker_binds(binds)))
            &&& section_at(args, at_dir, seq!["-w"@, run_dir(spec, root)])
            &&& section_at(args, at_dir + 2, flagged("-e"@, settings(keys, env)))
            &&& section_at(args, at_image, seq![session.image@, spec.program@] + spec.args.deep_view())
        }),
{
    let args = command.args.deep_view();
    let root = session.project_root@;
    let binds = docker_mounts(*session)->Ok_0;
    let env = spec.env@.insert("HOME"@, session.home);
    let keys = choose|keys: Seq<Seq<char>>| #[trigger]
        lists_in_order(keys, env.dom()) && args == docker_args(*session, spec, binds, keys);
    let net = docker_network(session.egress_pins@);
    let head = seq!["run"@, "--name"@, session.container@, "--init"@, "-i"@, "--network"@];
    let own = seq!["-v"@, root + ":"@ + root];
    let home = seq!["-v"@, session.volume@ + ":"@ + session.home@];
    let project = seq!["-v"@, root + ":"@ + root, "-v"@, session.volume@ + ":"@ + session.home@];
    let mounts = flagged("-v"@, docker_binds(binds));
    let dir = seq!["-w"@, run_dir(spec, root)];
    let set = flagged("-e"@, settings(keys, env));
    let tail = seq![session.image@, spec.program@] + spec.args.deep_view();
    lemma_flagged("--add-host"@, host_pins(session.egress_pins@));
    lemma_flagged("-v"@, docker_binds(binds));
    lemma_flagged("-e"@, settings(keys, env));
    lemma_sections(head, net, project, mounts, dir, set, tail);
    assert(head + net + own + home =~= head + net + project);
    let front = head + net + project + mounts + dir + set;
    assert(front + seq![session.image@] + seq![spec.program@] + spec.args.deep_view() =~= front + tail);
    keys
}

/// A container is named; it has no network, or one without names in which only the hosts
/// that may be reached have addresses.
pub proof fn law_docker_network(session: &DockerSession, spec: CommandSpec, command: CommandSpec)
    requires
        call_ensures(<DockerSession as SandboxSession>::wrap, (session, spec), Ok(command)),
    ensures
        ({
            let args = command.args.deep_view();
            let pins = session.egress_pins@;
            &&& command.program@ == "docker"@
            &&& command.env@ == Map::<Seq<char>, String>::empty()
            &&& command.cwd is None
            &&& args.len() > 6
            &&& args[0] == "run"@
            &&& flag_at(args, 1, "--name"@, session.container@)
            &&& args[3] == "--init"@
            &&& args[4] == "-i"@
            &&& pins.len() == 0 ==> flag_at(args, 5, "--network"@, "none"@)
            &&& pins.len() > 0 ==> flag_at(args, 5, "--network"@, "bridge"@) && flag_at(
                args,
                7,
                "--dns"@,
                "0.0.0.0"@,
            )
            &&& forall|i: int|
                0 <= i < pins.len() ==> flag_at(
                    args,
                    9 + 2 * i,
                    "--add-host"@,
                    (#[trigger] pins[i]).0@ + ":"@ + pins[i].1@,
                )
        }),
{
    let args = command.args.deep_view();
    let pins = session.egress_pins@;
    let keys = lemma_docker_sections(session, spec, command);
    let head = seq!["run"@, "--name"@, session.container@, "--init"@, "-i"@, "--network"@];
    let net = docker_network(pins);
    lemma_word_at(args, 0, head, 0);
    lemma_word_at(args, 0, head, 1);
    lemma_word_at(args, 0, head, 2);
    lemma_word_at(args, 0, head, 3);
    lemma_word_at(args, 0, head, 4);
    lemma_word_at(args, 0, head, 5);
    lemma_word_at(args, 6, net, 0);
    if pins.len() > 0 {
        lemma_word_at(args, 6, net, 1);
        lemma_word_at(args, 6, net, 2);
    }
    let hosts = host_pins(pins);
    lemma_flagged("--add-host"@, hosts);
    assert forall|i: int| 0 <= i < pins.len() implies flag_at(
        args,
        9 + 2 * i,
        "--add-host"@,
        (#[trigger] pins[i]).0@ + ":"@ + pins[i].1@,
    ) by {
        assert(hosts[i] == pins[i].0@ + ":"@ + pins[i].1@);
        lemma_flagged_pair("--add-host"@, hosts, i);
        assert(net[3 + 2 * i] == flagged("--add-host"@, hosts)[2 * i]);
        assert(net[4 + 2 * i] == flagged("--add-host"@, hosts)[2 * i + 1]);
        lemma_word_at(args, 6, net, 3 + 2 * i);
        lemma_word_at(args, 6, net, 4 + 2 * i);
    }
}

/// A container has the project at its own path, the session's home, and then every mount
/// that takes effect, its source at its target and read-only unless it was declared
/// writable.
pub proof fn law_docker_mounts(session: &DockerSession, spec: CommandSpec, command: CommandSpec)
    requires
        call_ensures(<DockerSession as SandboxSession>::wrap, (session, spec), Ok(command)),
    ensures
        ({
            let args = command.args.deep_view();
            let root = session.project_root@;
            let binds = mounts_in_effect(session.mounts@, root, session.host_home.deep_view(), session.image@);
            let at: int = if session.egress_pins@.len() == 0 {
                7
            } else {
                9 + 2 * session.egress_pins@.len() as int
            };
            &&& flag_at(args, at, "-v"@, root + ":"@ + root)
            &&& flag_at(args, at + 2, "-v"@, session.volume@ + ":"@ + session.home@)
            &&& forall|i: int|
                0 <= i < binds.len() ==> flag_at(
                    args,
                    at + 4 + 2 * i,
                    "-v"@,
                    if (#[trigger] binds[i]).writable {
                        binds[i].source + ":"@ + binds[i].target
                    } else {
                        binds[i].source + ":"@ + binds[i].target + ":"@ + "ro"@
                    },
                )
        }),
{
    let args = command.args.deep_view();
    let root = session.project_root@;
    let binds = docker_mounts(*session)->Ok_0;
    let at = docker_mounts_at(session);
    let keys = lemma_docker_sections(session, spec, command);
    let project = seq!["-v"@, root + ":"@ + root, "-v"@, session.volume@ + ":"@ + session.home@];
    lemma_word_at(args, at, project, 0);
    lemma_word_at(args, at, project, 1);
    lemma_word_at(args, at, project, 2);
    lemma_word_at(args, at, project, 3);
    let texts = docker_binds(binds);
    assert forall|i: int| 0 <= i < binds.len() implies flag_at(
        args,
        at + 4 + 2 * i,
        "-v"@,
        if (#[trigger] binds[i]).writable {
            binds[i].source + ":"@ + binds[i].target
        } else {
            binds[i].source + ":"@ + binds[i].target + ":"@ + "ro"@
        },
    ) by {
        lemma_mode_text(binds[i]);
        lemma_flag_at(args, at + 4, "-v"@, texts, i);
        assert(texts[i] == docker_bind(binds[i]));
    }
}

/// A command in a container runs in its own directory, or else in the project, with its
/// environment, in which the home directory is the session's own; it comes last, after the
/// image, with all its arguments. The arguments hold nothing else.
pub proof fn law_docker_command(session: &DockerSession, spec: CommandSpec, command: CommandSpec)
    requires
        call_ensures(<DockerSession as SandboxSession>::wrap, (session, spec), Ok(command)),
    ensures
        ({
            let args = command.args.deep_view();
            let root = session.project_root@;
            let binds = mounts_in_effect(session.mounts@, root, session.host_home.deep_view(), session.image@);
            let at_mounts: int = if session.egress_pins@.len() == 0 {
                7
            } else {
                9 + 2 * session.egress_pins@.len() as int
            };
            let at_dir: int = at_mounts + 4 + 2 * binds.len() as int;
            let at_image = args.len() - spec.args@.len() - 2;
            &&& flag_at(
                args,
                at_dir,
                "-w"@,
                if spec.cwd is Some {
                    spec.cwd->0@
                } else {
                    root
                },
            )
            &&& environment_at(args, at_dir + 2, at_image, "-e"@, spec.env@.insert("HOME"@, session.home))
            &&& args[at_image] == session.image@
            &&& args[at_image + 1] == spec.program@
            &&& forall|i: int| 0 <= i < spec.args@.len() ==> args[at_image + 2 + i] == (#[trigger] spec.args@[i])@
        }),
{
    let args = command.args.deep_view();
    let root = session.project_root@;
    let binds = docker_mounts(*session)->Ok_0;
    let env = spec.env@.insert("HOME"@, session.home);
    let at_dir: int = docker_mounts_at(session) + 4 + 2 * binds.len() as int;
    let keys = lemma_docker_sections(session, spec, command);
    let at_image: int = at_dir + 2 + 2 * keys.len() as int;
    lemma_pair_at(args, at_dir, "-w"@, run_dir(spec, root));
    lemma_environment_at(args, at_dir + 2, "-e"@, keys, env);
    let tail = seq![session.image@, spec.program@] + spec.args.deep_view();
    lemma_word_at(args, at_image, tail, 0);
    lemma_word_at(args, at_image, tail, 1);
    assert forall|i: int| 0 <= i < spec.args@.len() implies args[at_image + 2 + i] == (#[trigger] spec.args@[i])@ by {
        lemma_word_at(args, at_image, tail, 2 + i);
        assert(tail[2 + i] == spec.args.deep_view()[i]);
    }
}

/// Whether a mount can be written without doubt: its paths hold no colon, and its target
/// is absolute.
pub open spec fn readable(bind: MountView) -> bool {
    &&& bind.source.len() > 0
    &&& !bind.source.contains(':')
    &&& !bind.target.contains(':')
    &&& absolute(bind.target)
}

/// For each mount that takes effect the arguments of microsandbox hold, after
/// `--mount-dir`, a text whose parts between colons are the source, the target and the
/// mode, so that, read as a mount, it gives the mount.
pub proof fn law_microsandbox_mounts_read_back(
    session: &MicrosandboxSession,
    spec: CommandSpec,
    command: CommandSpec,
    i: int,
)
    requires
        call_ensures(<MicrosandboxSession as SandboxSession>::wrap, (session, spec), Ok(command)),
        ({
            let binds = mounts_in_effect(
                session.mounts@,
                session.project_root@,
                session.host_home.deep_view(),
                session.image@,
            );
            0 <= i < binds.len() && readable(binds[i])
        }),
    ensures
        ({
            let bind = mounts_in_effect(
                session.mounts@,
                session.project_root@,
                session.host_home.deep_view(),
                session.image@,
            )[i];
            let args = command.args.deep_view();
            let mode = if bind.writable {
                "rw"@
            } else {
                "ro"@
            };
            exists|p: int|
                0 <= p < args.len() - 1 && args[p] == "--mount-dir"@ && split(#[trigger] args[p + 1], ':') == seq![
                    bind.source,
                    bind.target,
                    mode,
                ] && mount_meaning(args[p + 1]) == Ok::<MountView, Seq<char>>(bind)
        }),
{
    let binds = mounts_in_effect(
        session.mounts@,
        session.project_root@,
        session.host_home.deep_view(),
        session.image@,
    );
    let args = command.args.deep_view();
    let bind = binds[i];
    let mode = if bind.writable {
        "rw"@
    } else {
        "ro"@
    };
    law_microsandbox_mounts(session, spec, command);
    let p: int = 5 + 2 * session.egress@.len() as int + 2 + 2 * i;
    assert(flag_at(args, p, "--mount-dir"@, bind.source + ":"@ + bind.target + ":"@ + mode));
    lemma_written_mount(bind.source, bind.target, Some(mode), bind.writable);
    assert(mount_meaning(args[p + 1]) == Ok::<MountView, Seq<char>>(bind));
}

/// For each mount that takes effect the arguments of docker hold, after `-v`, a text whose
/// parts between colons are the source, the target and, where it is read-only, the mode.
pub proof fn law_docker_mounts_read_back(session: &DockerSession, spec: CommandSpec, command: CommandSpec, i: int)
    requires
        call_ensures(<DockerSession as SandboxSession>::wrap, (session, spec), Ok(command)),
        ({
            let binds = mounts_in_effect(
                session.mounts@,
                session.project_root@,
                session.host_home.deep_view(),
                session.image@,
            );
            0 <= i < binds.len() && readable(binds[i])
        }),
    ensures
        ({
            let bind = mounts_in_effect(
                session.mounts@,
                session.project_root@,
                session.host_home.deep_view(),
                session.image@,
            )[i];
            let args = command.args.deep_view();
            let parts = if bind.writable {
                seq![bind.source, bind.target]
            } else {
                seq![bind.source, bind.target, "ro"@]
            };
            exists|p: int| 0 <= p < args.len() - 1 && args[p] == "-v"@ && split(#[trigger] args[p + 1], ':') == parts
        }),
{
    let binds = mounts_in_effect(
        session.mounts@,
        session.project_root@,
        session.host_home.deep_view(),
        session.image@,
    );
    let args = command.args.deep_view();
    let bind = binds[i];
    law_docker_mounts(session, spec, command);
    let p: int = docker_mounts_at(session) + 4 + 2 * i;
    if bind.writable {
        assert(flag_at(args, p, "-v"@, bind.source + ":"@ + bind.target));
        lemma_written_mount(bind.source, bind.target, None, false);
        assert(split(args[p + 1], ':') == seq![bind.source, bind.target]);
    } else {
        assert(flag_at(args, p, "-v"@, bind.source + ":"@ + bind.target + ":"@ + "ro"@));
        lemma_written_mount(bind.source, bind.target, Some("ro"@), false);
        assert(split(args[p + 1], ':') == seq![bind.source, bind.target, "ro"@]);
    }
}

/// How a written mount is split and read.
proof fn lemma_written_mount(source: Seq<char>, target: Seq<char>, mode: Option<Seq<char>>, writable: bool)
    requires
        source.len() > 0,
        !source.contains(':'),
        !target.contains(':'),
        absolute(target),
        mode matches Some(mode) ==> is_mode(mode, writable),
        mode is None ==> !writable,
    ensures
        ({
            let text = match mode {
                Some(mode) => source + ":"@ + target + ":"@ + mode,
                None => source + ":"@ + target,
            };
            &&& mount_meaning(text) == Ok::<MountView, Seq<char>>(MountView { source, target, writable })
            &&& split(text, ':') == (match mode {
                Some(mode) => seq![source, target, mode],
                None => seq![source, target],
            })
        }),
{
    reveal_strlit(":");
    reveal_strlit("ro");
    reveal_strlit("rw");
    reveal_strlit("w");
    if let Some(mode) = mode {
        assert(!mode.contains(':'));
        assert(mount_text(source, Some(target), Some(mode)) =~= source + ":"@ + target + ":"@ + mode);
    } else {
        assert(mount_text(source, Some(target), None) =~= source + ":"@ + target);
    }
    lemma_mount_text_means(source, Some(target), mode, writable);
    lemma_mount_text_parts(source, Some(target), mode);
}

// ---------------------------------------------------------------------------
// Laws of sessions and providers
// ---------------------------------------------------------------------------

/// A command is wrapped exactly where every mount of the session can be read.
pub proof fn law_unreadable_mounts_stop_a_run(
    docker: &DockerSession,
    docker_spec: CommandSpec,
    docker_wrapped: Result<CommandSpec, String>,
    msb: &MicrosandboxSession,
    msb_spec: CommandSpec,
    msb_wrapped: Result<CommandSpec, String>,
)
    requires
        call_ensures(<DockerSession as SandboxSession>::wrap, (docker, docker_spec), docker_wrapped),
        call_ensures(<MicrosandboxSession as SandboxSession>::wrap, (msb, msb_spec), msb_wrapped),
    ensures
        docker_wrapped is Ok <==> forall|k: int|
            0 <= k < docker.mounts@.len() ==> mount_meaning((#[trigger] docker.mounts@[k]).1@) is Ok,
        msb_wrapped is Ok <==> forall|k: int|
            0 <= k < msb.mounts@.len() ==> mount_meaning((#[trigger] msb.mounts@[k]).1@) is Ok,
{
    lemma_effective_where_readable(
        docker.mounts@,
        docker.project_root@,
        docker.host_home.deep_view(),
        docker.image@,
    );
    lemma_effective_where_readable(msb.mounts@, msb.project_root@, msb.host_home.deep_view(), msb.image@);
}

/// Mounts take effect where each can be read.
proof fn lemma_effective_where_readable(
    mounts: Seq<(MountOrigin, String)>,
    project_root: Seq<char>,
    home: Option<Seq<char>>,
    image: Seq<char>,
)
    ensures
        effective(declarations(mounts), project_root, home, image) is Ok <==> forall|k: int|
            0 <= k < mounts.len() ==> mount_meaning((#[trigger] mounts[k]).1@) is Ok,
    decreases mounts.len(),
{
    if mounts.len() > 0 {
        let front = mounts.drop_last();
        lemma_effective_where_readable(front, project_root, home, image);
        assert(declarations(mounts).drop_last() =~= declarations(front));
        assert(declarations(mounts).last() == mounts.last().1@);
        let all_front = forall|k: int| 0 <= k < front.len() ==> mount_meaning((#[trigger] front[k]).1@) is Ok;
        let all = forall|k: int| 0 <= k < mounts.len() ==> mount_meaning((#[trigger] mounts[k]).1@) is Ok;
        if all {
            assert forall|k: int| 0 <= k < front.len() implies mount_meaning((#[trigger] front[k]).1@) is Ok by {
                assert(front[k] == mounts[k]);
            }
        }
        if all_front && mount_meaning(mounts.last().1@) is Ok {
            assert forall|k: int| 0 <= k < mounts.len() implies mount_meaning((#[trigger] mounts[k]).1@) is Ok by {
                if k < front.len() {
                    assert(front[k] == mounts[k]);
                }
            }
        }
        if all {
            assert(mount_meaning(mounts[mounts.len() - 1].1@) is Ok);
        }
    }
}

/// The paths that have to exist are the project and, in order, the sources of the mounts,
/// all of them where each can be read.
pub proof fn law_every_source_is_needed(session: &MicrosandboxSession, docker: &DockerSession, msb_sources: Vec<String>, docker_sources: Vec<String>)
    requires
        call_ensures(<MicrosandboxSession as SandboxSession>::bind_sources, (session,), msb_sources),
        call_ensures(<DockerSession as SandboxSession>::bind_sources, (docker,), docker_sources),
    ensures
        lists_sources(session.mounts@, session.project_root@, session.host_home.deep_view(), msb_sources.deep_view()),
        lists_sources(docker.mounts@, docker.project_root@, docker.host_home.deep_view(), docker_sources.deep_view()),
{
    lemma_sources_listed(session.mounts@, session.project_root@, session.host_home.deep_view());
    lemma_sources_listed(docker.mounts@, docker.project_root@, docker.host_home.deep_view());
}

/// Whether `sources` are the project and the sources of `mounts`, up to the first that
/// cannot be read.
pub open spec fn lists_sources(
    mounts: Seq<(MountOrigin, String)>,
    project_root: Seq<char>,
    home: Option<Seq<char>>,
    sources: Seq<Seq<char>>,
) -> bool {
    &&& 0 < sources.len() <= mounts.len() + 1
    &&& sources[0] == project_root
    &&& forall|k: int|
        0 <= k < sources.len() - 1 ==> mount_meaning((#[trigger] mounts[k]).1@) is Ok && sources[k + 1] == expanded(
            mount_meaning(mounts[k].1@)->Ok_0.source,
            project_root,
            home,
        )
    &&& sources.len() <= mounts.len() ==> mount_meaning(mounts[sources.len() - 1].1@) is Err
}

proof fn lemma_sources_listed(mounts: Seq<(MountOrigin, String)>, project_root: Seq<char>, home: Option<Seq<char>>)
    ensures
        lists_sources(mounts, project_root, home, needed_sources(project_root, home, mounts)),
{
    lemma_readable_count(mounts);
    let sources = needed_sources(project_root, home, mounts);
    assert forall|k: int| 0 <= k < sources.len() - 1 implies mount_meaning((#[trigger] mounts[k]).1@) is Ok
        && sources[k + 1] == expanded(mount_meaning(mounts[k].1@)->Ok_0.source, project_root, home) by {}
}

/// The mounts that are counted as readable are, and the next one is not.
proof fn lemma_readable_count(mounts: Seq<(MountOrigin, String)>)
    ensures
        0 <= readable_mounts(mounts) <= mounts.len(),
        forall|k: int| 0 <= k < readable_mounts(mounts) ==> mount_meaning((#[trigger] mounts[k]).1@) is Ok,
        readable_mounts(mounts) < mounts.len() ==> mount_meaning(mounts[readable_mounts(mounts)].1@) is Err,
    decreases mounts.len(),
{
    if mounts.len() > 0 && mount_meaning(mounts[0].1@) is Ok {
        let rest = mounts.drop_first();
        lemma_readable_count(rest);
        assert forall|k: int| 0 <= k < readable_mounts(mounts) implies mount_meaning((#[trigger] mounts[k]).1@) is Ok by {
            if k > 0 {
                assert(rest[k - 1] == mounts[k]);
            }
        }
    }
}

/// A session is refused exactly where the project is not there, a mount cannot be read or
/// its source is not there. The first fault in this order is reported, by the path or the
/// text that is at fault.
pub proof fn law_missing_sources_are_reported(
    docker: &DockerSession,
    docker_present: &Vec<bool>,
    docker_verdict: Result<(), String>,
    msb: &MicrosandboxSession,
    msb_present: &Vec<bool>,
    msb_verdict: Result<(), String>,
)
    requires
        call_ensures(<DockerSession as SandboxSession>::validate_mounts, (docker, docker_present), docker_verdict),
        call_ensures(<MicrosandboxSession as SandboxSession>::validate_mounts, (msb, msb_present), msb_verdict),
    ensures
        match docker_verdict {
            Ok(()) => no_fault(docker.mounts@, docker_present@),
            Err(text) => first_fault_told(
                docker.mounts@,
                docker.project_root@,
                docker.host_home.deep_view(),
                docker_present@,
                text@,
            ),
        },
        match msb_verdict {
            Ok(()) => no_fault(msb.mounts@, msb_present@),
            Err(text) => first_fault_told(
                msb.mounts@,
                msb.project_root@,
                msb.host_home.deep_view(),
                msb_present@,
                text@,
            ),
        },
{
    lemma_mount_check(
        docker.project_root@,
        docker.host_home.deep_view(),
        docker.image@,
        docker.mounts@,
        docker_present@,
        true,
    );
    lemma_mount_check(
        msb.project_root@,
        msb.host_home.deep_view(),
        msb.image@,
        msb.mounts@,
        msb_present@,
        false,
    );
}

/// Whether the project and the source of every mount are there, and every mount can be
/// read. What is there of the project comes first in `present`.
pub open spec fn no_fault(mounts: Seq<(MountOrigin, String)>, present: Seq<bool>) -> bool {
    &&& present.len() > mounts.len()
    &&& present[0]
    &&& forall|k: int| 0 <= k < mounts.len() ==> mount_meaning((#[trigger] mounts[k]).1@) is Ok && present[k + 1]
}

/// Whether `text` tells the first fault: the project is not there, or of the mounts all
/// before one are in order and that one cannot be read or its source is not there.
pub open spec fn first_fault_told(
    mounts: Seq<(MountOrigin, String)>,
    project_root: Seq<char>,
    home: Option<Seq<char>>,
    present: Seq<bool>,
    text: Seq<char>,
) -> bool {
    if present.len() == 0 || !present[0] {
        begins(text, "sandbox project mount source '"@ + project_root)
    } else {
        exists|k: int|
            0 <= k < mounts.len() && no_fault(#[trigger] mounts.take(k), present) && match mount_meaning(mounts[k].1@) {
                Err(_) => begins(text, "invalid mount '"@ + mounts[k].1@),
                Ok(mount) => (present.len() <= k + 1 || !present[k + 1]) && begins(
                    text,
                    "sandbox "@ + (if mounts[k].0 is Sandbox {
                        "Sandbox"@
                    } else {
                        "Route"@
                    }) + " mount source '"@ + expanded(mount.source, project_root, home),
                ),
            }
    }
}

proof fn lemma_mount_check(
    project_root: Seq<char>,
    home: Option<Seq<char>>,
    image: Seq<char>,
    mounts: Seq<(MountOrigin, String)>,
    present: Seq<bool>,
    docker: bool,
)
    ensures
        match mount_check(project_root, home, image, mounts, present, docker) {
            Ok(()) => no_fault(mounts, present),
            Err(text) => first_fault_told(mounts, project_root, home, present, text),
        },
    decreases mounts.len(),
{
    if mounts.len() == 0 {
        if !there(present, 0) {
            lemma_begins("sandbox project mount source '"@ + project_root, missing_suffix(docker));
        }
    } else {
        let front = mounts.drop_last();
        let last = mounts.len() - 1;
        assert(mounts.take(last) =~= front);
        lemma_mount_check(project_root, home, image, front, present, docker);
        match mount_check(project_root, home, image, front, present, docker) {
            Err(text) => {
                if present.len() > 0 && present[0] {
                    let k = choose|k: int|
                        0 <= k < front.len() && no_fault(#[trigger] front.take(k), present) && match mount_meaning(
                            front[k].1@,
                        ) {
                            Err(_) => begins(text, "invalid mount '"@ + front[k].1@),
                            Ok(mount) => (present.len() <= k + 1 || !present[k + 1]) && begins(
                                text,
                                "sandbox "@ + (if front[k].0 is Sandbox {
                                    "Sandbox"@
                                } else {
                                    "Route"@
                                }) + " mount source '"@ + expanded(mount.source, project_root, home),
                            ),
                        };
                    assert(mounts.take(k) =~= front.take(k));
                    assert(mounts[k] == front[k]);
                    assert(no_fault(mounts.take(k), present));
                }
            },
            Ok(()) => {
                assert(no_fault(mounts.take(last), present));
                match mount_meaning(mounts.last().1@) {
                    Err(cause) => {
                        let start = "invalid mount '"@ + mounts.last().1@;
                        lemma_begins(start, "' for sandbox '"@ + image + "': "@ + cause);
                        assert(start + ("' for sandbox '"@ + image + "': "@ + cause)
                            =~= crate::mounts::bad_mount_text(mounts.last().1@, image, cause));
                    },
                    Ok(mount) => {
                        let start = "sandbox "@ + mounts.last().0.word() + " mount source '"@ + expanded(
                            mount.source,
                            project_root,
                            home,
                        );
                        lemma_begins(start, missing_suffix(docker));
                        if there(present, mounts.len() as int) {
                            assert forall|k: int| 0 <= k < mounts.len() implies mount_meaning(
                                (#[trigger] mounts[k]).1@,
                            ) is Ok && present[k + 1] by {
                                if k < last {
                                    assert(front[k] == mounts[k]);
                                }
                            }
                        }
                    },
                }
            },
        }
    }
}

/// A text begins with what it was put together from.
proof fn lemma_begins(start: Seq<char>, rest: Seq<char>)
    ensures
        begins(start + rest, start),
{
    assert((start + rest).subrange(0, start.len() as int) =~= start);
}

/// What a run leaves behind is what the run made: the container that is removed has the
/// name of the one that was started, the volume that is removed is the one that held the
/// home directory, and the records are copied from the home directory inside to where
/// they are looked for.
pub proof fn law_docker_leaves_nothing_behind(
    session: &DockerSession,
    spec: CommandSpec,
    command: CommandSpec,
    copy: CommandSpec,
    removal: (CommandSpec, CommandSpec),
    root: Option<String>,
)
    requires
        call_ensures(<DockerSession as SandboxSession>::wrap, (session, spec), Ok(command)),
        call_ensures(DockerSession::extract_session_store, (session,), copy),
        call_ensures(DockerSession::teardown, (session,), removal),
        call_ensures(<DockerSession as SandboxSession>::session_store_root, (session,), root),
    ensures
        ({
            let started = command.args.deep_view();
            let copied = copy.args.deep_view();
            let container = removal.0.args.deep_view();
            let volume = removal.1.args.deep_view();
            &&& copy.program@ == "docker"@ && removal.0.program@ == "docker"@ && removal.1.program@ == "docker"@
            &&& container =~= seq!["rm"@, "-f"@, started[2]]
            &&& volume.len() == 4 && volume.take(3) =~= seq!["volume"@, "rm"@, "-f"@]
            &&& exists|p: int| 0 <= p < started.len() && #[trigger] started[p] == volume[3] + ":"@ + session.home@
            &&& root is Some
            &&& copied =~= seq!["cp"@, started[2] + ":"@ + session.home@ + "/."@, root->0@]
        }),
{
    law_docker_network(session, spec, command);
    law_docker_mounts(session, spec, command);
    let started = command.args.deep_view();
    let at = docker_mounts_at(session);
    assert(flag_at(started, at + 2, "-v"@, session.volume@ + ":"@ + session.home@));
    assert(started[at + 3] == session.volume@ + ":"@ + session.home@);
}

/// What a run leaves behind is what the run made: the machine that is stopped and removed
/// has the name of the one that was started, and the records are copied out of its home
/// directory to below where they are looked for.
pub proof fn law_microsandbox_leaves_nothing_behind(
    session: &MicrosandboxSession,
    spec: CommandSpec,
    command: CommandSpec,
    copy: CommandSpec,
    removal: (CommandSpec, CommandSpec),
    root: Option<String>,
)
    requires
        call_ensures(<MicrosandboxSession as SandboxSession>::wrap, (session, spec), Ok(command)),
        call_ensures(MicrosandboxSession::extract_session_store, (session,), copy),
        call_ensures(MicrosandboxSession::teardown, (session,), removal),
        call_ensures(<MicrosandboxSession as SandboxSession>::session_store_root, (session,), root),
    ensures
        ({
            let started = command.args.deep_view();
            let copied = copy.args.deep_view();
            &&& copy.program@ == "msb"@ && removal.0.program@ == "msb"@ && removal.1.program@ == "msb"@
            &&& removal.0.args.deep_view() =~= seq!["stop"@, started[2]]
            &&& removal.1.args.deep_view() =~= seq!["rm"@, "-f"@, started[2]]
            &&& copied =~= seq!["cp"@, started[2] + ":"@ + session.home@, session.session_store@]
            &&& root is Some
            &&& last_name(session.home@) matches Some(name) ==> root->0@ == below(copied[2], name)
            &&& last_name(session.home@) is None ==> root->0@ == copied[2]
        }),
{
    law_microsandbox_network(session, spec, command);
}

/// A name that is fit for a container has a character for each of the id: the same where
/// that is a letter, a digit, `_`, `.` or `-`, and `-` otherwise.
pub proof fn law_names_are_made_fit_character_by_character(session_id: &str, name: String, i: int)
    requires
        call_ensures(sanitize_docker_name, (session_id,), name),
        0 <= i < session_id@.len(),
    ensures
        name@.len() == session_id@.len(),
        ({
            let c = session_id@[i];
            let fit = 'a' <= c <= 'z' || 'A' <= c <= 'Z' || '0' <= c <= '9' || c == '_' || c == '.' || c == '-';
            name@[i] == if fit {
                c
            } else {
                '-'
            }
        }),
{
}

/// A session has the mounts, the hosts and the image that it is made with, keeps its
/// records in a directory of its own, and its container, or its machine, has a name that
/// is made of its id.
pub proof fn law_sessions_are_made_as_configured(
    docker: &DockerProvider,
    docker_ctx: &SandboxContext<'_>,
    pins: Vec<(String, String)>,
    docker_ready: Prepared,
    docker_session: DockerSession,
    msb: &MicrosandboxProvider,
    msb_ctx: &SandboxContext<'_>,
    msb_ready: Prepared,
    msb_session: MicrosandboxSession,
    docker_name: String,
    msb_name: String,
)
    requires
        call_ensures(DockerProvider::prepare, (docker, docker_ctx, pins, docker_ready), docker_session),
        call_ensures(MicrosandboxProvider::prepare, (msb, msb_ctx, msb_ready), msb_session),
        call_ensures(sanitize_docker_name, (docker_ctx.session_id,), docker_name),
        call_ensures(sanitize_docker_name, (msb_ctx.session_id,), msb_name),
    ensures
        docker_session.container@ == "varda-sbx-"@ + docker_name@,
        docker_session.volume@ == docker_session.container@,
        docker_session.image@ == docker_ready.image@,
        docker_session.project_root@ == docker_ctx.project_root@,
        docker_session.egress_pins == pins,
        docker_session.session_store@ == below(docker_ready.sessions_root@, docker_ctx.session_id@),
        docker_session.home@ == "/home/agent"@,
        docker_session.host_home == docker_ready.host_home,
        docker_session.mounts@.len() == docker.mounts@.len(),
        forall|i: int|
            0 <= i < docker.mounts@.len() ==> (#[trigger] docker_session.mounts@[i]).0 == docker.mounts@[i].0
                && docker_session.mounts@[i].1@ == docker.mounts@[i].1@,
        msb_session.sandbox@ == "varda-sbx-"@ + msb_name@,
        msb_session.image@ == msb_ready.image@,
        msb_session.project_root@ == msb_ctx.project_root@,
        msb_session.session_store@ == below(msb_ready.sessions_root@, msb_ctx.session_id@),
        msb_session.home@ == "/home/agent"@,
        msb_session.host_home == msb_ready.host_home,
        msb_session.egress@.len() == msb.egress@.len(),
        forall|i: int| 0 <= i < msb.egress@.len() ==> (#[trigger] msb_session.egress@[i])@ == msb.egress@[i]@,
        msb_session.mounts@.len() == msb.mounts@.len(),
        forall|i: int|
            0 <= i < msb.mounts@.len() ==> (#[trigger] msb_session.mounts@[i]).0 == msb.mounts@[i].0
                && msb_session.mounts@[i].1@ == msb.mounts@[i].1@,
{
    lemma_tagged_alike(docker_session.mounts@, docker.mounts@);
    lemma_tagged_alike(msb_session.mounts@, msb.mounts@);
    assert(msb_session.egress@.len() == msb.egress@.len()) by {
        assert(msb_session.egress.deep_view().len() == msb.egress.deep_view().len());
    }
    assert forall|i: int| 0 <= i < msb.egress@.len() implies (#[trigger] msb_session.egress@[i])@ == msb.egress@[i]@ by {
        assert(msb_session.egress.deep_view()[i] == msb.egress.deep_view()[i]);
    }
}

/// What a list of tagged mounts says at each place.
proof fn lemma_tagged(mounts: Seq<(MountOrigin, String)>)
    ensures
        tagged(mounts).len() == mounts.len(),
        forall|i: int| 0 <= i < mounts.len() ==> #[trigger] tagged(mounts)[i] == (mounts[i].0, mounts[i].1@),
{
}

/// Lists that say the same say it place by place.
proof fn lemma_tagged_alike(a: Seq<(MountOrigin, String)>, b: Seq<(MountOrigin, String)>)
    requires
        tagged(a) == tagged(b),
    ensures
        a.len() == b.len(),
        forall|i: int| 0 <= i < b.len() ==> (#[trigger] a[i]).0 == b[i].0 && a[i].1@ == b[i].1@,
{
    lemma_tagged(a);
    lemma_tagged(b);
    assert forall|i: int| 0 <= i < b.len() implies (#[trigger] a[i]).0 == b[i].0 && a[i].1@ == b[i].1@ by {
        assert(tagged(a)[i] == tagged(b)[i]);
    }
}

/// Whether a list of mounts is that of a sandbox and then that of a route, each with its
/// origin.
pub open spec fn own_then_route(
    mounts: Seq<(MountOrigin, String)>,
    own: &Vec<String>,
    route: &Vec<String>,
) -> bool {
    &&& mounts.len() == own@.len() + route@.len()
    &&& forall|i: int|
        0 <= i < own@.len() ==> (#[trigger] mounts[i]).0 is Sandbox && mounts[i].1@ == own@[i]@
    &&& forall|i: int|
        own@.len() <= i < mounts.len() ==> (#[trigger] mounts[i]).0 is Route && mounts[i].1@ == route@[i
            - own@.len()]@
}

/// A name calls for what the configuration says under it: nothing for `local`, which need
/// not be configured; a container or a virtual machine, with the mounts of the sandbox and
/// then those of the route, where there is an image or something to build one from; and a
/// report that it is not there for `clawk`. Nothing else can be called for.
pub proof fn law_names_call_for_their_sandbox(
    name: &str,
    sandboxes: &StringMap<SandboxConfig>,
    route_mounts: &Vec<String>,
    provider: Result<Provider, String>,
)
    requires
        call_ensures(provider_for, (name, sandboxes, route_mounts), provider),
    ensures
        !sandboxes@.dom().contains(name@) ==> {
            &&& provider is Ok <==> name@ == "local"@
            &&& provider is Ok ==> provider->Ok_0 is Local
        },
        sandboxes@.dom().contains(name@) ==> {
            let config = sandboxes@[name@];
            let word = config.primitive@;
            let can_run = (config.image matches Some(image) && image@.len() > 0) || (config.build matches Some(build)
                && build@.len() > 0);
            &&& word == "local"@ ==> (provider matches Ok(Provider::Local(_)))
            &&& word == "clawk"@ ==> (provider matches Ok(Provider::Stub(stub)) && stub.name@ == name@
                && stub.primitive@ == word)
            &&& word == "docker"@ && can_run ==> (provider matches Ok(Provider::Docker(made)) && made.name@ == name@
                && own_then_route(made.mounts@, &config.mounts, route_mounts) && made.egress.deep_view()
                == config.egress.deep_view())
            &&& word == "microsandbox"@ && can_run ==> (provider matches Ok(Provider::Microsandbox(made)) && made.name@
                == name@ && own_then_route(made.mounts@, &config.mounts, route_mounts) && made.egress.deep_view()
                == config.egress.deep_view())
            &&& (word == "docker"@ || word == "microsandbox"@) && !can_run ==> provider is Err
            &&& word != "local"@ && word != "clawk"@ && word != "docker"@ && word != "microsandbox"@
                ==> provider is Err
        },
{
    reveal_strlit("local");
    reveal_strlit("clawk");
    reveal_strlit("docker");
    reveal_strlit("microsandbox");
    assert("local"@[0] == 'l');
    assert("clawk"@[0] == 'c');
    assert("docker"@[0] == 'd');
    assert("microsandbox"@[0] == 'm');
    if sandboxes@.dom().contains(name@) {
        let config = sandboxes@[name@];
        if let Ok(Provider::Docker(made)) = provider {
            lemma_union(made.mounts@, &config, route_mounts);
        }
        if let Ok(Provider::Microsandbox(made)) = provider {
            lemma_union(made.mounts@, &config, route_mounts);
        }
    }
}

proof fn lemma_union(mounts: Seq<(MountOrigin, String)>, config: &SandboxConfig, route_mounts: &Vec<String>)
    requires
        tagged(mounts) == union_of_mounts(config, route_mounts.deep_view()),
    ensures
        own_then_route(mounts, &config.mounts, route_mounts),
{
    let all = union_of_mounts(config, route_mounts.deep_view());
    lemma_tagged(mounts);
    assert forall|i: int| 0 <= i < config.mounts@.len() implies (#[trigger] mounts[i]).0 is Sandbox && mounts[i].1@
        == config.mounts@[i]@ by {
        assert(tagged(mounts)[i] == all[i]);
    }
    assert forall|i: int| config.mounts@.len() <= i < mounts.len() implies (#[trigger] mounts[i]).0 is Route
        && mounts[i].1@ == route_mounts@[i - config.mounts@.len()]@ by {
        assert(tagged(mounts)[i] == all[i]);
        assert(all[i].1 == route_mounts.deep_view()[i - config.mounts@.len()]);
    }
}

/// Of an image to build and one that is there by name, the one to build is taken; of
/// either, what is configured and not empty.
pub proof fn law_images_are_built_where_they_can_be(
    name: &str,
    config: &SandboxConfig,
    route_mounts: &Vec<String>,
    provider: DockerProvider,
    source: Result<ImageSource, String>,
    msb_provider: MicrosandboxProvider,
    msb_source: Result<ImageSource, String>,
)
    requires
        call_ensures(DockerProvider::from_config, (name, config, route_mounts), Ok(provider)),
        call_ensures(DockerProvider::resolve_image, (&provider,), source),
        call_ensures(MicrosandboxProvider::from_config, (name, config, route_mounts), Ok(msb_provider)),
        call_ensures(MicrosandboxProvider::resolve_image, (&msb_provider,), msb_source),
    ensures
        config.build matches Some(build) && build@.len() > 0 ==> {
            &&& (source matches Ok(ImageSource::Build(file)) && file@ == config.build->0@)
            &&& (msb_source matches Ok(ImageSource::Build(file)) && file@ == config.build->0@)
        },
        !(config.build matches Some(build) && build@.len() > 0) ==> {
            &&& config.image is Some && config.image->0@.len() > 0
            &&& (source matches Ok(ImageSource::Named(tag)) && tag@ == config.image->0@)
            &&& (msb_source matches Ok(ImageSource::Named(tag)) && tag@ == config.image->0@)
        },
{
}

/// The records of all sessions lie in `sessions` below `VARDA_HOME` where that is set and
/// not empty, or else below `.varda` in the home directory, or else below `.varda` here.
pub proof fn law_session_records_have_one_place(varda_home: Option<&str>, home: Option<&str>, root: String)
    requires
        call_ensures(varda_sessions_root, (varda_home, home), root),
    ensures
        varda_home matches Some(dir) && dir@.len() > 0 && dir@.last() != '/' ==> root@ == varda_home->0@ + "/sessions"@,
        !(varda_home matches Some(dir) && dir@.len() > 0) ==> {
            &&& (home matches Some(dir) && dir@.len() > 0 && dir@.last() != '/') ==> root@ == home->0@
                + "/.varda/sessions"@
            &&& home is None ==> root@ == ".varda/sessions"@
        },
{
    reveal_strlit("sessions");
    reveal_strlit("/sessions");
    reveal_strlit(".varda");
    reveal_strlit("/.varda/sessions");
    reveal_strlit(".varda/sessions");
    if let Some(dir) = varda_home {
        if dir@.len() > 0 && dir@.last() != '/' {
            assert(root@ =~= dir@ + "/sessions"@);
        }
    }
    if !(varda_home matches Some(dir) && dir@.len() > 0) {
        if let Some(dir) = home {
            if dir@.len() > 0 && dir@.last() != '/' {
                let base = below(dir@, ".varda"@);
                assert(base.last() == 'a');
                assert(root@ =~= dir@ + "/.varda/sessions"@);
            }
        } else {
            assert(".varda"@.last() == 'a');
            assert(root@ =~= ".varda/sessions"@);
        }
    }
}

/// Without a sandbox a command runs as it is, and its records lie in the home directory of the
/// host, where they are written while the run goes on.
pub proof fn law_local_commands_run_as_they_are(
    session: &LocalSession,
    spec: CommandSpec,
    wrapped: Result<CommandSpec, String>,
    root: Option<String>,
)
    requires
        call_ensures(<LocalSession as SandboxSession>::wrap, (session, spec), wrapped),
        call_ensures(<LocalSession as SandboxSession>::session_store_root, (session,), root),
    ensures
        wrapped is Ok && wrapped->Ok_0 == spec,
        root.deep_view() == session.host_home.deep_view(),
{
}

} // verus!
