//! Mounts: host paths that a sandbox may see.

use vstd::prelude::*;
use vstd::string::*;

use crate::paths::{absolute, below, join_path, paths_agree, same_path};
use crate::text::{
    begins, chars_of, holds, join, law_nothing_is_replaced_elsewhere, law_replacing_goes_from_left_to_right,
    law_split_takes_the_first_part, law_splitting_loses_nothing, replace, replaced, same, split, split_on, starts_with,
    string_of,
};

verus! {

/// Where a mount was declared.
#[derive(Debug, Clone, Copy, PartialEq, Eq, Structural)]
pub enum MountOrigin {
    /// With the sandbox: the same for every project.
    Sandbox,
    /// With the route: for the projects of that route.
    Route,
}

impl MountOrigin {
    /// The name of the origin in reports.
    pub open spec fn word(self) -> Seq<char> {
        match self {
            MountOrigin::Sandbox => "Sandbox"@,
            MountOrigin::Route => "Route"@,
        }
    }

    /// The name of the origin in reports.
    pub fn as_str(self) -> (word: &'static str)
        ensures
            word@ == self.word(),
    {
        match self {
            MountOrigin::Sandbox => "Sandbox",
            MountOrigin::Route => "Route",
        }
    }
}

/// A mount: `source` on the host is seen as `target` in the sandbox. Both are as
/// they were written; [`expand_mount_path`] makes them absolute.
#[derive(Debug, Clone, PartialEq, Eq)]
pub struct MountSpec {
    pub source: String,
    pub target: String,
    pub writable: bool,
}

/// What a [`MountSpec`] says.
pub struct MountView {
    pub source: Seq<char>,
    pub target: Seq<char>,
    pub writable: bool,
}

impl View for MountSpec {
    type V = MountView;

    open spec fn view(&self) -> MountView {
        MountView { source: self.source@, target: self.target@, writable: self.writable }
    }
}

// ---------------------------------------------------------------------------
// The grammar of mounts
// ---------------------------------------------------------------------------

/// What a mode word says of writing, where it is one.
pub open spec fn mode_of(word: Seq<char>) -> Option<bool> {
    if word == "ro"@ {
        Some(false)
    } else if word == "rw"@ || word == "w"@ {
        Some(true)
    } else {
        None
    }
}

/// What a mode word says of writing, where it is one.
pub fn mount_mode_writable(segment: &str) -> (writable: Option<bool>)
    ensures
        writable == mode_of(segment@),
{
    if same(segment, "ro") {
        Some(false)
    } else if same(segment, "rw") || same(segment, "w") {
        Some(true)
    } else {
        None
    }
}

/// What the text of a mount means: `SOURCE`, `SOURCE:MODE`, `SOURCE:TARGET` or
/// `SOURCE:TARGET:MODE`, where a target is an absolute path and a mode is `ro`,
/// `rw` or `w`. The target is the source where none is given, and a mount without a
/// mode is read-only.
pub open spec fn mount_meaning(raw: Seq<char>) -> Result<MountView, Seq<char>> {
    let parts = split(raw, ':');
    if parts.len() == 1 && parts[0].len() > 0 {
        Ok(MountView { source: parts[0], target: parts[0], writable: false })
    } else if parts.len() == 2 && parts[0].len() > 0 {
        match mode_of(parts[1]) {
            Some(writable) => Ok(MountView { source: parts[0], target: parts[0], writable }),
            None => if begins(parts[1], "/"@) {
                Ok(MountView { source: parts[0], target: parts[1], writable: false })
            } else {
                Err(
                    "invalid mount '"@ + raw
                        + "': expected SOURCE, SOURCE:MODE, SOURCE:/ABS_TARGET, or SOURCE:/ABS_TARGET:MODE (MODE = ro|rw|w)"@,
                )
            },
        }
    } else if parts.len() == 3 && parts[0].len() > 0 {
        match mode_of(parts[2]) {
            None => Err(
                "invalid mount '"@ + raw + "': trailing segment '"@ + parts[2] + "' is not a mode (ro|rw|w)"@,
            ),
            Some(writable) => if begins(parts[1], "/"@) {
                Ok(MountView { source: parts[0], target: parts[1], writable })
            } else {
                Err("invalid mount '"@ + raw + "': TARGET '"@ + parts[1] + "' must be an absolute path"@)
            },
        }
    } else {
        Err("invalid mount '"@ + raw + "': malformed (empty or too many ':'-separated segments)"@)
    }
}

/// The result of reading a mount without its strings' storage.
pub open spec fn mount_result(result: Result<MountSpec, String>) -> Result<MountView, Seq<char>> {
    match result {
        Ok(mount) => Ok(mount@),
        Err(text) => Err(text@),
    }
}

/// Reads the text of a mount.
pub fn parse_mount(raw: &str) -> (mount: Result<MountSpec, String>)
    ensures
        mount_result(mount) == mount_meaning(raw@),
{
    let parts = split_on(raw, ':');
    let ghost views = parts.deep_view();
    assert(forall|i: int| 0 <= i < parts@.len() ==> views[i] == parts@[i]@);
    if parts.len() == 1 && !parts[0].as_str().is_empty() {
        Ok(MountSpec { source: parts[0].clone(), target: parts[0].clone(), writable: false })
    } else if parts.len() == 2 && !parts[0].as_str().is_empty() {
        match mount_mode_writable(parts[1].as_str()) {
            Some(writable) => Ok(
                MountSpec { source: parts[0].clone(), target: parts[0].clone(), writable },
            ),
            None => if starts_with(parts[1].as_str(), "/") {
                Ok(MountSpec { source: parts[0].clone(), target: parts[1].clone(), writable: false })
            } else {
                Err(
                    "invalid mount '".to_owned().concat(raw).concat(
                        "': expected SOURCE, SOURCE:MODE, SOURCE:/ABS_TARGET, or SOURCE:/ABS_TARGET:MODE (MODE = ro|rw|w)",
                    ),
                )
            },
        }
    } else if parts.len() == 3 && !parts[0].as_str().is_empty() {
        match mount_mode_writable(parts[2].as_str()) {
            None => Err(
                "invalid mount '".to_owned().concat(raw).concat("': trailing segment '").concat(
                    parts[2].as_str(),
                ).concat("' is not a mode (ro|rw|w)"),
            ),
            Some(writable) => if starts_with(parts[1].as_str(), "/") {
                Ok(MountSpec { source: parts[0].clone(), target: parts[1].clone(), writable })
            } else {
                Err(
                    "invalid mount '".to_owned().concat(raw).concat("': TARGET '").concat(
                        parts[1].as_str(),
                    ).concat("' must be an absolute path"),
                )
            },
        }
    } else {
        Err(
            "invalid mount '".to_owned().concat(raw).concat(
                "': malformed (empty or too many ':'-separated segments)",
            ),
        )
    }
}

/// A mount is read-only unless its text ends with a mode that says otherwise.
pub proof fn law_mounts_are_read_only_unless_asked(raw: Seq<char>)
    ensures
        mount_meaning(raw) matches Ok(mount) && mount.writable ==> mode_of(split(raw, ':').last()) == Some(
            true,
        ),
{
}

/// What the table form of a mount means.
pub open spec fn table_meaning(
    source: Seq<char>,
    target: Option<Seq<char>>,
    mode: Option<Seq<char>>,
) -> Result<MountView, Seq<char>> {
    let place = match target {
        Some(target) => target,
        None => source,
    };
    match mode {
        None => Ok(MountView { source, target: place, writable: false }),
        Some(word) => match mode_of(word) {
            Some(writable) => Ok(MountView { source, target: place, writable }),
            None => Err("invalid mount mode '"@ + word + "' (expected ro|rw|w)"@),
        },
    }
}

/// Reads the table form of a mount.
pub fn mount_from_table(source: &str, target: Option<&str>, mode: Option<&str>) -> (mount: Result<MountSpec, String>)
    ensures
        mount_result(mount) == table_meaning(source@, target.deep_view(), mode.deep_view()),
{
    let writable = match mode {
        None => false,
        Some(word) => match mount_mode_writable(word) {
            Some(writable) => writable,
            None => {
                return Err(
                    "invalid mount mode '".to_owned().concat(word).concat("' (expected ro|rw|w)"),
                );
            },
        },
    };
    let place = match target {
        Some(target) => target,
        None => source,
    };
    Ok(MountSpec { source: source.to_owned(), target: place.to_owned(), writable })
}

// ---------------------------------------------------------------------------
// Expanding paths
// ---------------------------------------------------------------------------

/// A mount path with the project and the home directory filled in.
pub open spec fn filled(raw: Seq<char>, project_root: Seq<char>, home: Option<Seq<char>>) -> Seq<char> {
    let text = replace(raw, "{project}"@, project_root);
    match home {
        None => text,
        Some(home) => if text == "~"@ {
            home
        } else if begins(text, "~/"@) {
            below(home, text.skip(2))
        } else {
            text
        },
    }
}

/// A mount path made absolute: `{project}` stands for the project, `~` for the
/// home directory, and a relative path lies below the project.
pub open spec fn expanded(raw: Seq<char>, project_root: Seq<char>, home: Option<Seq<char>>) -> Seq<char> {
    below(project_root, filled(raw, project_root, home))
}

/// Makes a mount path absolute.
pub fn expand_mount_path(raw: &str, project_root: &str, home: Option<&str>) -> (path: String)
    ensures
        path@ == expanded(raw@, project_root@, home.deep_view()),
{
    proof {
        reveal_strlit("{project}");
        reveal_strlit("~/");
    }
    let text = replaced(raw, "{project}", project_root);
    let full = match home {
        None => text,
        Some(home) => if same(text.as_str(), "~") {
            home.to_owned()
        } else if starts_with(text.as_str(), "~/") {
            let chars = chars_of(text.as_str());
            let rest = string_of(&chars, 2, chars.len());
            assert(rest@ =~= text@.skip(2));
            join_path(home, rest.as_str())
        } else {
            text
        },
    };
    join_path(project_root, full.as_str())
}

/// Where the project is given by an absolute path, every expanded path is absolute.
pub proof fn law_expanded_paths_are_absolute(raw: Seq<char>, project_root: Seq<char>, home: Option<Seq<char>>)
    requires
        absolute(project_root),
    ensures
        absolute(expanded(raw, project_root, home)),
{
}

// ---------------------------------------------------------------------------
// The mounts that take effect
// ---------------------------------------------------------------------------

/// Whether some of `binds` is mounted at `target`.
pub open spec fn claimed(binds: Seq<MountView>, target: Seq<char>) -> bool {
    exists|i: int| 0 <= i < binds.len() && same_path((#[trigger] binds[i]).target, target)
}

/// The mount that `raw` declares, with both paths made absolute.
pub open spec fn bind_of(mount: MountView, project_root: Seq<char>, home: Option<Seq<char>>) -> MountView {
    MountView {
        source: expanded(mount.source, project_root, home),
        target: expanded(mount.target, project_root, home),
        writable: mount.writable,
    }
}

/// The report of a mount that cannot be read, for the reason `cause`.
pub open spec fn bad_mount_text(raw: Seq<char>, image: Seq<char>, cause: Seq<char>) -> Seq<char> {
    "invalid mount '"@ + raw + "' for sandbox '"@ + image + "': "@ + cause
}

/// The mounts that take effect of those declared: for each target the first that
/// claims it. The first declaration that cannot be read is an error.
pub open spec fn effective(
    raws: Seq<Seq<char>>,
    project_root: Seq<char>,
    home: Option<Seq<char>>,
    image: Seq<char>,
) -> Result<Seq<MountView>, Seq<char>>
    decreases raws.len(),
{
    if raws.len() == 0 {
        Ok(Seq::empty())
    } else {
        match effective(raws.drop_last(), project_root, home, image) {
            Err(text) => Err(text),
            Ok(binds) => match mount_meaning(raws.last()) {
                Err(cause) => Err(bad_mount_text(raws.last(), image, cause)),
                Ok(mount) => {
                    let bind = bind_of(mount, project_root, home);
                    if claimed(binds, bind.target) {
                        Ok(binds)
                    } else {
                        Ok(binds.push(bind))
                    }
                },
            },
        }
    }
}

/// What a list of mounts says.
pub open spec fn mount_views(mounts: Seq<MountSpec>) -> Seq<MountView> {
    Seq::new(mounts.len(), |i: int| mounts[i]@)
}

/// The declarations of a list of mounts.
pub open spec fn declarations(mounts: Seq<(MountOrigin, String)>) -> Seq<Seq<char>> {
    Seq::new(mounts.len(), |i: int| mounts[i].1@)
}

/// Whether some of `binds` is mounted at `target`.
fn is_claimed(binds: &Vec<MountSpec>, target: &str) -> (found: bool)
    ensures
        found == claimed(mount_views(binds@), target@),
{
    let mut i: usize = 0;
    while i < binds.len()
        invariant
            i <= binds@.len(),
            forall|j: int| 0 <= j < i ==> !same_path((#[trigger] mount_views(binds@)[j]).target, target@),
        decreases binds@.len() - i,
    {
        assert(mount_views(binds@)[i as int] == binds@[i as int]@);
        if paths_agree(binds[i].target.as_str(), target) {
            return true;
        }
        i += 1;
    }
    false
}

/// An error among the first declarations is the error of all.
proof fn lemma_effective_error(
    raws: Seq<Seq<char>>,
    n: int,
    project_root: Seq<char>,
    home: Option<Seq<char>>,
    image: Seq<char>,
)
    requires
        0 <= n <= raws.len(),
        effective(raws.take(n), project_root, home, image) is Err,
    ensures
        effective(raws, project_root, home, image) == effective(raws.take(n), project_root, home, image),
    decreases raws.len() - n,
{
    if n < raws.len() {
        assert(raws.take(n + 1).drop_last() =~= raws.take(n));
        lemma_effective_error(raws, n + 1, project_root, home, image);
    } else {
        assert(raws.take(n) =~= raws);
    }
}

/// The mounts that take effect, with both paths made absolute.
pub fn effective_mounts(
    mounts: &Vec<(MountOrigin, String)>,
    project_root: &str,
    home: Option<&str>,
    image: &str,
) -> (binds: Result<Vec<MountSpec>, String>)
    ensures
        match binds {
            Ok(binds) => effective(declarations(mounts@), project_root@, home.deep_view(), image@) == Ok::<
                Seq<MountView>,
                Seq<char>,
            >(mount_views(binds@)),
            Err(text) => effective(declarations(mounts@), project_root@, home.deep_view(), image@) == Err::<
                Seq<MountView>,
                Seq<char>,
            >(text@),
        },
{
    let ghost raws = declarations(mounts@);
    let mut binds: Vec<MountSpec> = Vec::new();
    let mut i: usize = 0;
    assert(raws.take(0) =~= Seq::empty());
    assert(mount_views(binds@) =~= Seq::empty());
    while i < mounts.len()
        invariant
            raws == declarations(mounts@),
            i <= mounts@.len(),
            effective(raws.take(i as int), project_root@, home.deep_view(), image@) == Ok::<
                Seq<MountView>,
                Seq<char>,
            >(mount_views(binds@)),
        decreases mounts@.len() - i,
    {
        let ghost next = raws.take(i + 1);
        let ghost before = mount_views(binds@);
        assert(next.drop_last() =~= raws.take(i as int));
        assert(next.last() == mounts@[i as int].1@);
        match parse_mount(mounts[i].1.as_str()) {
            Err(cause) => {
                proof {
                    lemma_effective_error(raws, i + 1, project_root@, home.deep_view(), image@);
                }
                return Err(
                    "invalid mount '".to_owned().concat(mounts[i].1.as_str()).concat("' for sandbox '").concat(
                        image,
                    ).concat("': ").concat(cause.as_str()),
                );
            },
            Ok(mount) => {
                let source = expand_mount_path(mount.source.as_str(), project_root, home);
                let target = expand_mount_path(mount.target.as_str(), project_root, home);
                if !is_claimed(&binds, target.as_str()) {
                    let bind = MountSpec { source, target, writable: mount.writable };
                    assert(bind@ == bind_of(mount@, project_root@, home.deep_view()));
                    binds.push(bind);
                    assert(mount_views(binds@) =~= before.push(bind@));
                }
            },
        }
        i += 1;
    }
    assert(raws.take(i as int) =~= raws);
    Ok(binds)
}

/// No two of the mounts that take effect have the same target.
pub proof fn law_targets_are_distinct(
    raws: Seq<Seq<char>>,
    project_root: Seq<char>,
    home: Option<Seq<char>>,
    image: Seq<char>,
)
    ensures
        effective(raws, project_root, home, image) matches Ok(binds) ==> forall|i: int, j: int|
            0 <= i < j < binds.len() ==> !same_path((#[trigger] binds[i]).target, (#[trigger] binds[j]).target),
    decreases raws.len(),
{
    if raws.len() > 0 {
        law_targets_are_distinct(raws.drop_last(), project_root, home, image);
        if let Ok(binds) = effective(raws, project_root, home, image) {
            let front = effective(raws.drop_last(), project_root, home, image)->Ok_0;
            assert forall|i: int, j: int| 0 <= i < j < binds.len() implies !same_path(
                (#[trigger] binds[i]).target,
                (#[trigger] binds[j]).target,
            ) by {
                if j == front.len() {
                    assert(!claimed(front, binds[j].target));
                    assert(front[i] == binds[i]);
                } else {
                    assert(front[i] == binds[i] && front[j] == binds[j]);
                }
            }
        }
    }
}

/// Every mount that takes effect was declared, and none becomes writable that was
/// not declared so.
pub proof fn law_mounts_come_from_declarations(
    raws: Seq<Seq<char>>,
    project_root: Seq<char>,
    home: Option<Seq<char>>,
    image: Seq<char>,
)
    ensures
        effective(raws, project_root, home, image) matches Ok(binds) ==> forall|i: int|
            0 <= i < binds.len() ==> declared(raws, project_root, home, #[trigger] binds[i]),
    decreases raws.len(),
{
    if raws.len() > 0 {
        law_mounts_come_from_declarations(raws.drop_last(), project_root, home, image);
        if let Ok(binds) = effective(raws, project_root, home, image) {
            let front = effective(raws.drop_last(), project_root, home, image)->Ok_0;
            assert forall|i: int| 0 <= i < binds.len() implies declared(
                raws,
                project_root,
                home,
                #[trigger] binds[i],
            ) by {
                if i < front.len() {
                    assert(binds[i] == front[i]);
                    assert(declared(raws.drop_last(), project_root, home, front[i]));
                    let k = choose|k: int|
                        0 <= k < raws.drop_last().len() && declares(
                            #[trigger] raws.drop_last()[k],
                            project_root,
                            home,
                            binds[i],
                        );
                    assert(raws[k] == raws.drop_last()[k]);
                } else {
                    assert(raws[raws.len() - 1] == raws.last());
                }
            }
        }
    }
}

/// Whether `bind` is what some of `raws` declares.
pub open spec fn declared(
    raws: Seq<Seq<char>>,
    project_root: Seq<char>,
    home: Option<Seq<char>>,
    bind: MountView,
) -> bool {
    exists|k: int| 0 <= k < raws.len() && declares(#[trigger] raws[k], project_root, home, bind)
}

/// Whether `bind` is what `raw` declares.
pub open spec fn declares(
    raw: Seq<char>,
    project_root: Seq<char>,
    home: Option<Seq<char>>,
    bind: MountView,
) -> bool {
    mount_meaning(raw) is Ok && bind == bind_of(mount_meaning(raw)->Ok_0, project_root, home)
}

/// Adding declarations never takes a mount away: the earlier declaration of a
/// target wins.
pub proof fn law_first_declaration_wins(
    raws: Seq<Seq<char>>,
    more: Seq<char>,
    project_root: Seq<char>,
    home: Option<Seq<char>>,
    image: Seq<char>,
)
    ensures
        effective(raws.push(more), project_root, home, image) matches Ok(binds) ==> {
            &&& effective(raws, project_root, home, image) is Ok
            &&& effective(raws, project_root, home, image)->Ok_0.is_prefix_of(binds)
        },
{
    assert(raws.push(more).drop_last() =~= raws);
}

// ---------------------------------------------------------------------------
// Laws of reading
// ---------------------------------------------------------------------------

/// Whether `word` is a mode, and says what `writable` says.
pub open spec fn is_mode(word: Seq<char>, writable: bool) -> bool {
    if writable {
        word == "rw"@ || word == "w"@
    } else {
        word == "ro"@
    }
}

/// The mode words are `ro`, which forbids writing, and `rw` and `w`, which allow it.
pub proof fn law_mode_words(word: &str, writable: Option<bool>)
    requires
        call_ensures(mount_mode_writable, (word,), writable),
    ensures
        word@ == "ro"@ ==> writable == Some(false),
        word@ == "rw"@ ==> writable == Some(true),
        word@ == "w"@ ==> writable == Some(true),
        writable matches Some(may) ==> is_mode(word@, may),
{
    reveal_strlit("ro");
    reveal_strlit("rw");
    reveal_strlit("w");
    assert("ro"@[1] == 'o');
    assert("rw"@[1] == 'w');
    assert("w"@.len() == 1);
}

/// The text of a mount with a target and a mode, where those are given.
pub open spec fn mount_text(source: Seq<char>, target: Option<Seq<char>>, mode: Option<Seq<char>>) -> Seq<char> {
    let with_target = match target {
        Some(target) => source + seq![':'] + target,
        None => source,
    };
    match mode {
        Some(mode) => with_target + seq![':'] + mode,
        None => with_target,
    }
}

/// How the text of a mount is split.
pub proof fn lemma_mount_text_parts(source: Seq<char>, target: Option<Seq<char>>, mode: Option<Seq<char>>)
    requires
        !source.contains(':'),
        target matches Some(target) ==> !target.contains(':'),
        mode matches Some(mode) ==> !mode.contains(':'),
    ensures
        split(mount_text(source, target, mode), ':') == (match (target, mode) {
            (None, None) => seq![source],
            (Some(target), None) => seq![source, target],
            (None, Some(mode)) => seq![source, mode],
            (Some(target), Some(mode)) => seq![source, target, mode],
        }),
{
    match (target, mode) {
        (None, None) => {
            law_split_takes_the_first_part(source, Seq::empty(), ':');
        },
        (Some(last), None) => {
            law_split_takes_the_first_part(source, last, ':');
            law_split_takes_the_first_part(last, Seq::empty(), ':');
            assert(split(mount_text(source, target, mode), ':') =~= seq![source, last]);
        },
        (None, Some(last)) => {
            law_split_takes_the_first_part(source, last, ':');
            law_split_takes_the_first_part(last, Seq::empty(), ':');
            assert(split(mount_text(source, target, mode), ':') =~= seq![source, last]);
        },
        (Some(target_text), Some(mode_text)) => {
            let rest = target_text + seq![':'] + mode_text;
            law_split_takes_the_first_part(source, rest, ':');
            law_split_takes_the_first_part(target_text, mode_text, ':');
            law_split_takes_the_first_part(mode_text, Seq::empty(), ':');
            assert(mount_text(source, target, mode) =~= source + seq![':'] + rest);
            assert(split(mount_text(source, target, mode), ':') =~= seq![source, target_text, mode_text]);
        },
    }
}

/// A mode word holds no colon, and is no absolute path.
proof fn lemma_mode_words(word: Seq<char>, writable: bool)
    requires
        is_mode(word, writable),
    ensures
        !word.contains(':'),
        !absolute(word),
        mode_of(word) == Some(writable),
{
    reveal_strlit("ro");
    reveal_strlit("rw");
    reveal_strlit("w");
    assert("ro"@[1] == 'o');
    assert("rw"@[1] == 'w');
    assert("w"@.len() == 1);
}

/// A mount is read back from its text: the source, the target, which is the source where
/// none is written, and the mode, which is read-only where none is written.
pub proof fn law_mounts_are_read_back(
    source: Seq<char>,
    target: Option<Seq<char>>,
    mode: Option<Seq<char>>,
    writable: bool,
    raw: &str,
    result: Result<MountSpec, String>,
)
    requires
        call_ensures(parse_mount, (raw,), result),
        raw@ == mount_text(source, target, mode),
        source.len() > 0,
        !source.contains(':'),
        target matches Some(target) ==> absolute(target) && !target.contains(':'),
        mode matches Some(mode) ==> is_mode(mode, writable),
        mode is None ==> !writable,
    ensures
        result matches Ok(mount) && mount.source@ == source && mount.writable == writable && mount.target@ == (
        match target {
            Some(target) => target,
            None => source,
        }),
{
    lemma_mount_text_means(source, target, mode, writable);
}

/// What the text of a mount means.
pub proof fn lemma_mount_text_means(
    source: Seq<char>,
    target: Option<Seq<char>>,
    mode: Option<Seq<char>>,
    writable: bool,
)
    requires
        source.len() > 0,
        !source.contains(':'),
        target matches Some(target) ==> absolute(target) && !target.contains(':'),
        mode matches Some(mode) ==> is_mode(mode, writable),
        mode is None ==> !writable,
    ensures
        mount_meaning(mount_text(source, target, mode)) == Ok::<MountView, Seq<char>>(
            MountView {
                source,
                target: match target {
                    Some(target) => target,
                    None => source,
                },
                writable,
            },
        ),
{
    reveal_strlit("/");
    if let Some(word) = mode {
        lemma_mode_words(word, writable);
    }
    lemma_mount_text_parts(source, target, mode);
    if let Some(path) = target {
        assert(path.subrange(0, 1) =~= "/"@);
        assert(begins(path, "/"@));
        if mode_of(path) is Some {
            lemma_mode_words(path, mode_of(path)->0);
        }
    }
}

/// Whatever is read as a mount was written as one: with a source, an absolute target
/// where it differs from the source, and a mode where it may be written.
pub proof fn law_only_mounts_are_read(raw: &str, mount: MountSpec)
    requires
        call_ensures(parse_mount, (raw,), Ok(mount)),
    ensures
        mount.source@.len() > 0,
        !mount.source@.contains(':'),
        !mount.target@.contains(':'),
        mount.target@ == mount.source@ || absolute(mount.target@),
        exists|target: Option<Seq<char>>, mode: Option<Seq<char>>|
            raw@ == #[trigger] mount_text(mount.source@, target, mode) && (target matches Some(target) ==> target
                == mount.target@) && (target is None ==> mount.target@ == mount.source@) && (mode matches Some(mode)
                ==> is_mode(mode, mount.writable)) && (mode is None ==> !mount.writable),
{
    reveal_strlit("/");
    law_splitting_loses_nothing(raw@, ':');
    let parts = split(raw@, ':');
    let colon = seq![':'];
    reveal_with_fuel(join, 4);
    if parts.len() == 1 {
        assert(mount_text(mount.source@, None, None) =~= raw@);
    } else if parts.len() == 2 {
        assert(parts.drop_last() =~= seq![parts[0]]);
        if mode_of(parts[1]) is Some {
            assert(mount_text(mount.source@, None, Some(parts[1])) =~= raw@);
        } else {
            assert(parts[1][0] == parts[1].subrange(0, 1)[0]);
            assert(mount_text(mount.source@, Some(mount.target@), None) =~= raw@);
        }
    } else {
        assert(parts.drop_last() =~= seq![parts[0], parts[1]]);
        assert(parts.drop_last().drop_last() =~= seq![parts[0]]);
        assert(parts[1][0] == parts[1].subrange(0, 1)[0]);
        assert(mount_text(mount.source@, Some(mount.target@), Some(parts[2])) =~= raw@);
    }
}

/// The table form of a mount says what it says field by field: without a target the
/// source is the target, without a mode it is read-only, and only a mode word is a mode.
pub proof fn law_tables_are_read_field_by_field(
    source: &str,
    target: Option<&str>,
    mode: Option<&str>,
    result: Result<MountSpec, String>,
)
    requires
        call_ensures(mount_from_table, (source, target, mode), result),
    ensures
        result is Ok <==> (mode matches Some(word) ==> is_mode(word@, true) || is_mode(word@, false)),
        result matches Ok(mount) ==> {
            &&& mount.source@ == source@
            &&& target matches Some(target) ==> mount.target@ == target@
            &&& target is None ==> mount.target@ == source@
            &&& mode matches Some(word) ==> is_mode(word@, mount.writable)
            &&& mode is None ==> !mount.writable
        },
{
}

// ---------------------------------------------------------------------------
// Laws of expanding
// ---------------------------------------------------------------------------

/// A path that names neither the project nor the home directory stays as it is where it
/// is absolute, and else lies below the project.
pub proof fn law_plain_paths_lie_below_the_project(
    raw: &str,
    project_root: &str,
    home: Option<&str>,
    path: String,
)
    requires
        call_ensures(expand_mount_path, (raw, project_root, home), path),
        !holds(raw@, "{project}"@),
        raw@ != "~"@,
        !begins(raw@, "~/"@),
    ensures
        absolute(raw@) ==> path@ == raw@,
        !absolute(raw@) && project_root@.len() > 0 && project_root@.last() != '/' ==> path@ == project_root@ + "/"@
            + raw@,
        !absolute(raw@) && project_root@.len() > 0 && project_root@.last() == '/' ==> path@ == project_root@ + raw@,
{
    reveal_strlit("/");
    law_nothing_is_replaced_elsewhere(raw@, "{project}"@, project_root@);
    assert(project_root@.push('/') =~= project_root@ + "/"@);
}

/// `~` stands for the home directory where that is known: alone, and before a slash.
pub proof fn law_a_tilde_is_the_home_directory(
    rest: Seq<char>,
    project_root: &str,
    home: &str,
    alone: &str,
    alone_path: String,
    before: &str,
    before_path: String,
)
    requires
        alone@ == "~"@,
        before@ == "~/"@ + rest,
        !holds(before@, "{project}"@),
        absolute(home@),
        home@.last() != '/',
        !absolute(rest),
        call_ensures(expand_mount_path, (alone, project_root, Some(home)), alone_path),
        call_ensures(expand_mount_path, (before, project_root, Some(home)), before_path),
    ensures
        alone_path@ == home@,
        before_path@ == home@ + "/"@ + rest,
{
    reveal_strlit("~");
    reveal_strlit("~/");
    reveal_strlit("/");
    reveal_strlit("{project}");
    if holds(alone@, "{project}"@) {
        let at = choose|at: int| crate::text::stands_at(alone@, "{project}"@, at);
        assert(false);
    }
    law_nothing_is_replaced_elsewhere(alone@, "{project}"@, project_root@);
    law_nothing_is_replaced_elsewhere(before@, "{project}"@, project_root@);
    assert(before@.len() >= 2);
    assert(before@.subrange(0, 2) =~= "~/"@);
    assert(before@.skip(2) =~= rest);
    assert(home@.push('/') + rest =~= home@ + "/"@ + rest);
}

/// `{project}` stands for the project.
pub proof fn law_the_project_is_filled_in(
    rest: Seq<char>,
    project_root: &str,
    home: Option<&str>,
    raw: &str,
    path: String,
)
    requires
        raw@ == "{project}"@ + rest,
        !holds(rest, "{project}"@),
        absolute(project_root@),
        call_ensures(expand_mount_path, (raw, project_root, home), path),
    ensures
        path@ == project_root@ + rest,
{
    reveal_strlit("{project}");
    reveal_strlit("~");
    reveal_strlit("~/");
    let none = Seq::<char>::empty();
    assert(none + "{project}"@ + rest =~= raw@);
    law_replacing_goes_from_left_to_right(none, "{project}"@, rest, project_root@);
    law_nothing_is_replaced_elsewhere(rest, "{project}"@, project_root@);
    let text = project_root@ + rest;
    assert(none + project_root@ + rest =~= text);
    assert(text[0] == '/');
    if begins(text, "~/"@) {
        assert(text.subrange(0, 2)[0] == text[0]);
    }
    if text == "~"@ {
        assert("~"@[0] == '~');
    }
}

/// Of the declarations those take effect that are the first to claim their target, in
/// their order, and each as it was declared: with its source and its target made
/// absolute, and writable exactly where it was declared so. A declaration that does not
/// take effect has the target of an earlier one that does.
pub proof fn law_first_claims_take_effect(
    mounts: &Vec<(MountOrigin, String)>,
    project_root: &str,
    home: Option<&str>,
    image: &str,
    binds: Vec<MountSpec>,
)
    requires
        call_ensures(effective_mounts, (mounts, project_root, home, image), Ok(binds)),
    ensures
        exists|places: Seq<int>| #[trigger]
            taken_at(declarations(mounts@), project_root@, home.deep_view(), mount_views(binds@), places),
{
    lemma_taken_at(declarations(mounts@), project_root@, home.deep_view(), image@);
}

/// Whether `binds` are what the declarations at `places` say, and the others have the
/// target of one of these before them.
pub open spec fn taken_at(
    raws: Seq<Seq<char>>,
    project_root: Seq<char>,
    home: Option<Seq<char>>,
    binds: Seq<MountView>,
    places: Seq<int>,
) -> bool {
    &&& places.len() == binds.len()
    &&& forall|i: int, j: int| 0 <= i < j < places.len() ==> #[trigger] places[i] < #[trigger] places[j]
    &&& forall|i: int|
        0 <= i < places.len() ==> 0 <= #[trigger] places[i] < raws.len() && mount_meaning(raws[places[i]]) is Ok && {
            let mount = mount_meaning(raws[places[i]])->Ok_0;
            &&& binds[i].source == expanded(mount.source, project_root, home)
            &&& binds[i].target == expanded(mount.target, project_root, home)
            &&& binds[i].writable == mount.writable
        }
    &&& forall|k: int|
        0 <= k < raws.len() ==> mount_meaning(#[trigger] raws[k]) is Ok && (places.contains(k) || exists|i: int|
            0 <= i < places.len() && #[trigger] places[i] < k && same_path(
                binds[i].target,
                expanded(mount_meaning(raws[k])->Ok_0.target, project_root, home),
            ))
    &&& forall|i: int, j: int|
        0 <= i < j < binds.len() ==> !same_path((#[trigger] binds[i]).target, (#[trigger] binds[j]).target)
}

/// The mounts that take effect are the first to claim their targets.
proof fn lemma_taken_at(
    raws: Seq<Seq<char>>,
    project_root: Seq<char>,
    home: Option<Seq<char>>,
    image: Seq<char>,
)
    requires
        effective(raws, project_root, home, image) is Ok,
    ensures
        exists|places: Seq<int>| #[trigger]
            taken_at(raws, project_root, home, effective(raws, project_root, home, image)->Ok_0, places),
    decreases raws.len(),
{
    let binds = effective(raws, project_root, home, image)->Ok_0;
    law_targets_are_distinct(raws, project_root, home, image);
    if raws.len() == 0 {
        assert(taken_at(raws, project_root, home, binds, Seq::empty()));
    } else {
        let front = raws.drop_last();
        let last = raws.len() - 1;
        lemma_taken_at(front, project_root, home, image);
        let before = effective(front, project_root, home, image)->Ok_0;
        let at = choose|places: Seq<int>| #[trigger] taken_at(front, project_root, home, before, places);
        let mount = mount_meaning(raws.last())->Ok_0;
        let bind = bind_of(mount, project_root, home);
        let places = if claimed(before, bind.target) {
            at
        } else {
            at.push(last)
        };
        assert forall|i: int| 0 <= i < at.len() implies raws[#[trigger] at[i]] == front[at[i]] && places[i] == at[i]
            && binds[i] == before[i] by {}
        assert forall|k: int| 0 <= k < raws.len() implies mount_meaning(#[trigger] raws[k]) is Ok && (places.contains(k)
            || exists|i: int|
            0 <= i < places.len() && #[trigger] places[i] < k && same_path(
                binds[i].target,
                expanded(mount_meaning(raws[k])->Ok_0.target, project_root, home),
            )) by {
            if k < last {
                assert(raws[k] == front[k]);
                if at.contains(k) {
                    let i = choose|i: int| 0 <= i < at.len() && at[i] == k;
                    assert(places[i] == k);
                } else {
                    let i = choose|i: int|
                        0 <= i < at.len() && #[trigger] at[i] < k && same_path(
                            before[i].target,
                            expanded(mount_meaning(front[k])->Ok_0.target, project_root, home),
                        );
                    assert(places[i] < k);
                }
            } else if claimed(before, bind.target) {
                let i = choose|i: int| 0 <= i < before.len() && same_path((#[trigger] before[i]).target, bind.target);
                assert(at[i] < last);
                assert(places[i] < k);
            } else {
                assert(places[places.len() - 1] == last);
            }
        }
        assert forall|i: int, j: int| 0 <= i < j < places.len() implies #[trigger] places[i] < #[trigger] places[j] by {
            assert(at[i] < last);
            if j < at.len() {
                assert(at[i] < at[j]);
            }
        }
        assert forall|i: int| 0 <= i < places.len() implies 0 <= #[trigger] places[i] < raws.len() && mount_meaning(
            raws[places[i]],
        ) is Ok && {
            let mount = mount_meaning(raws[places[i]])->Ok_0;
            &&& binds[i].source == expanded(mount.source, project_root, home)
            &&& binds[i].target == expanded(mount.target, project_root, home)
            &&& binds[i].writable == mount.writable
        } by {
            if i < at.len() {
                assert(raws[at[i]] == front[at[i]]);
            }
        }
        assert(taken_at(raws, project_root, home, binds, places));
    }
}

/// Where the mounts cannot be made, one of the declarations cannot be read, and the
/// report names the first such one.
pub proof fn law_the_first_bad_mount_is_reported(
    mounts: &Vec<(MountOrigin, String)>,
    project_root: &str,
    home: Option<&str>,
    image: &str,
    text: String,
)
    requires
        call_ensures(effective_mounts, (mounts, project_root, home, image), Err(text)),
    ensures
        exists|k: int|
            0 <= k < mounts@.len() && mount_meaning((#[trigger] mounts@[k]).1@) is Err && begins(
                text@,
                "invalid mount '"@ + mounts@[k].1@ + "'"@,
            ) && forall|j: int| 0 <= j < k ==> mount_meaning((#[trigger] mounts@[j]).1@) is Ok,
{
    let raws = declarations(mounts@);
    lemma_first_bad(raws, project_root@, home.deep_view(), image@);
    let k = choose|k: int|
        0 <= k < raws.len() && mount_meaning(#[trigger] raws[k]) is Err && text@ == bad_mount_text(
            raws[k],
            image@,
            mount_meaning(raws[k])->Err_0,
        ) && forall|j: int| 0 <= j < k ==> mount_meaning(#[trigger] raws[j]) is Ok;
    assert(raws[k] == mounts@[k].1@);
    reveal_strlit("'");
    reveal_strlit("' for sandbox '");
    let start = "invalid mount '"@ + raws[k] + "'"@;
    assert(text@.subrange(0, start.len() as int) =~= start);
    assert forall|j: int| 0 <= j < k implies mount_meaning((#[trigger] mounts@[j]).1@) is Ok by {
        assert(raws[j] == mounts@[j].1@);
    }
}

/// An error is that of the first declaration that cannot be read.
proof fn lemma_first_bad(raws: Seq<Seq<char>>, project_root: Seq<char>, home: Option<Seq<char>>, image: Seq<char>)
    requires
        effective(raws, project_root, home, image) is Err,
    ensures
        exists|k: int|
            0 <= k < raws.len() && mount_meaning(#[trigger] raws[k]) is Err && effective(
                raws,
                project_root,
                home,
                image,
            ) == Err::<Seq<MountView>, Seq<char>>(bad_mount_text(raws[k], image, mount_meaning(raws[k])->Err_0))
                && forall|j: int| 0 <= j < k ==> mount_meaning(#[trigger] raws[j]) is Ok,
    decreases raws.len(),
{
    let front = raws.drop_last();
    if effective(front, project_root, home, image) is Err {
        lemma_first_bad(front, project_root, home, image);
        let k = choose|k: int|
            0 <= k < front.len() && mount_meaning(#[trigger] front[k]) is Err && effective(
                front,
                project_root,
                home,
                image,
            ) == Err::<Seq<MountView>, Seq<char>>(bad_mount_text(front[k], image, mount_meaning(front[k])->Err_0))
                && forall|j: int| 0 <= j < k ==> mount_meaning(#[trigger] front[j]) is Ok;
        assert(raws[k] == front[k]);
        assert forall|j: int| 0 <= j < k implies mount_meaning(#[trigger] raws[j]) is Ok by {
            assert(raws[j] == front[j]);
        }
    } else {
        lemma_taken_at(front, project_root, home, image);
        let before = effective(front, project_root, home, image)->Ok_0;
        let at = choose|places: Seq<int>| #[trigger] taken_at(front, project_root, home, before, places);
        assert forall|j: int| 0 <= j < raws.len() - 1 implies mount_meaning(#[trigger] raws[j]) is Ok by {
            assert(raws[j] == front[j]);
        }
        assert(raws[raws.len() - 1] == raws.last());
    }
}

} // verus!
