//! Paths, written with slashes.

use vstd::prelude::*;
use vstd::string::*;

use crate::order::{list_before, list_comes_before};
use crate::text::{chars_of, join, joined, push_char, same, split, split_on, string_of};

verus! {

/// Whether a path begins at the root.
pub open spec fn absolute(path: Seq<char>) -> bool {
    path.len() > 0 && path[0] == '/'
}

/// Whether a path begins at the root.
pub fn is_absolute(path: &str) -> (from_root: bool)
    ensures
        from_root == absolute(path@),
{
    let chars = chars_of(path);
    chars.len() > 0 && chars[0] == '/'
}

/// `path` seen from `base`: itself where it is absolute, or else below `base`.
pub open spec fn below(base: Seq<char>, path: Seq<char>) -> Seq<char> {
    if absolute(path) || base.len() == 0 {
        path
    } else if base.last() == '/' {
        base + path
    } else {
        base.push('/') + path
    }
}

/// `path` seen from `base`.
pub fn join_path(base: &str, path: &str) -> (joined: String)
    ensures
        joined@ == below(base@, path@),
{
    let base_chars = chars_of(base);
    if is_absolute(path) || base_chars.len() == 0 {
        path.to_owned()
    } else {
        let mut joined = base.to_owned();
        if base_chars[base_chars.len() - 1] != '/' {
            push_char(&mut joined, '/');
        }
        joined.append(path);
        joined
    }
}

/// Whether a segment of a path says anything: it is not empty, nor a dot other than
/// at the start of a relative path.
pub open spec fn counts(segments: Seq<Seq<char>>, i: int) -> bool {
    segments[i].len() > 0 && (segments[i] != "."@ || i == 0)
}

/// The segments of a path that say anything.
pub open spec fn components_from(segments: Seq<Seq<char>>, n: int) -> Seq<Seq<char>>
    decreases n,
{
    if n <= 0 {
        Seq::empty()
    } else if counts(segments, n - 1) {
        components_from(segments, n - 1).push(segments[n - 1])
    } else {
        components_from(segments, n - 1)
    }
}

/// The components of a path. Repeated slashes, slashes at the end and dots in
/// between do not matter.
pub open spec fn components(path: Seq<char>) -> Seq<Seq<char>> {
    components_from(split(path, '/'), split(path, '/').len() as int)
}

/// Whether two paths are written alike, up to slashes and dots.
pub open spec fn same_path(a: Seq<char>, b: Seq<char>) -> bool {
    absolute(a) == absolute(b) && components(a) == components(b)
}

/// The components of a path.
pub fn components_of(path: &str) -> (parts: Vec<String>)
    ensures
        parts.deep_view() == components(path@),
{
    let segments = split_on(path, '/');
    let ghost all = segments.deep_view();
    let mut parts: Vec<String> = Vec::new();
    let mut i: usize = 0;
    assert(parts.deep_view() =~= components_from(all, 0));
    while i < segments.len()
        invariant
            all == segments.deep_view(),
            i <= segments@.len(),
            parts.deep_view() == components_from(all, i as int),
        decreases segments@.len() - i,
    {
        let ghost before = parts.deep_view();
        let segment = &segments[i];
        assert(all[i as int] == segment@);
        if !segment.as_str().is_empty() && (i == 0 || !same(segment.as_str(), ".")) {
            parts.push(segment.clone());
            assert(parts.deep_view() =~= before.push(segment@));
        }
        i += 1;
    }
    parts
}

/// Whether two lists hold the same strings.
pub fn same_strings(a: &Vec<String>, b: &Vec<String>) -> (equal: bool)
    ensures
        equal == (a.deep_view() == b.deep_view()),
{
    if a.len() != b.len() {
        assert(a.deep_view().len() != b.deep_view().len());
        return false;
    }
    let mut i: usize = 0;
    while i < a.len()
        invariant
            i <= a@.len(),
            a@.len() == b@.len(),
            forall|j: int| 0 <= j < i ==> a@[j]@ == b@[j]@,
        decreases a@.len() - i,
    {
        if !same(a[i].as_str(), b[i].as_str()) {
            assert(a.deep_view()[i as int] != b.deep_view()[i as int]);
            return false;
        }
        i += 1;
    }
    assert(a.deep_view() =~= b.deep_view());
    true
}

/// Whether two paths are written alike, up to slashes and dots.
pub fn paths_agree(a: &str, b: &str) -> (equal: bool)
    ensures
        equal == same_path(a@, b@),
{
    is_absolute(a) == is_absolute(b) && same_strings(&components_of(a), &components_of(b))
}

/// The weight of a component among others: a dot, two dots, and then names by their
/// characters.
pub open spec fn weight(component: Seq<char>) -> Seq<char> {
    if component == "."@ {
        "2"@
    } else if component == ".."@ {
        "3"@
    } else {
        "4"@ + component
    }
}

/// The weights of the components of a path, the root being the lightest.
pub open spec fn path_weights(path: Seq<char>) -> Seq<Seq<char>> {
    let names = Seq::new(components(path).len(), |i: int| weight(components(path)[i]));
    if absolute(path) {
        seq!["1"@] + names
    } else {
        names
    }
}

/// Whether one path comes before another: component by component, a path coming
/// before what lies below it.
pub open spec fn path_before(a: Seq<char>, b: Seq<char>) -> bool {
    list_before(path_weights(a), path_weights(b))
}

fn weights_of(path: &str) -> (weights: Vec<String>)
    ensures
        weights.deep_view() == path_weights(path@),
{
    let parts = components_of(path);
    let mut weights: Vec<String> = Vec::new();
    let ghost mut lead: int = 0;
    if is_absolute(path) {
        weights.push("1".to_owned());
        proof {
            lead = 1;
        }
    }
    let mut i: usize = 0;
    while i < parts.len()
        invariant
            parts.deep_view() == components(path@),
            lead == (if absolute(path@) { 1int } else { 0int }),
            i <= parts@.len(),
            weights@.len() == lead + i,
            absolute(path@) ==> weights@[0]@ == "1"@,
            forall|j: int| 0 <= j < i ==> (#[trigger] weights@[lead + j])@ == weight(components(path@)[j]),
        decreases parts@.len() - i,
    {
        let part = parts[i].as_str();
        assert(parts.deep_view()[i as int] == part@);
        if same(part, ".") {
            weights.push("2".to_owned());
        } else if same(part, "..") {
            weights.push("3".to_owned());
        } else {
            weights.push("4".to_owned().concat(part));
        }
        i += 1;
    }
    assert(weights.deep_view() =~= path_weights(path@)) by {
        assert forall|k: int| 0 <= k < weights@.len() implies #[trigger] weights.deep_view()[k] == path_weights(
            path@,
        )[k] by {
            if k >= lead {
                assert(weights@[lead + (k - lead)]@ == weight(components(path@)[k - lead]));
            }
        }
    }
    weights
}

/// Whether one path comes before another.
pub fn path_comes_before(a: &str, b: &str) -> (less: bool)
    ensures
        less == path_before(a@, b@),
{
    list_comes_before(&weights_of(a), &weights_of(b))
}

/// The last component of a path, where it is a name.
pub open spec fn last_name(path: Seq<char>) -> Option<Seq<char>> {
    let parts = components(path);
    if parts.len() == 0 || parts.last() == ".."@ || parts.last() == "."@ {
        None
    } else {
        Some(parts.last())
    }
}

/// The last component of a path, where it is a name.
pub fn file_name(path: &str) -> (name: Option<String>)
    ensures
        name.deep_view() == last_name(path@),
{
    let parts = components_of(path);
    if parts.len() == 0 {
        return None;
    }
    let last = &parts[parts.len() - 1];
    assert(parts.deep_view().last() == last@);
    if same(last.as_str(), "..") || same(last.as_str(), ".") {
        None
    } else {
        Some(last.clone())
    }
}

/// The position of the last dot of a name, or zero where there is none.
pub open spec fn last_dot(name: Seq<char>) -> int
    decreases name.len(),
{
    if name.len() == 0 {
        0
    } else if name.last() == '.' {
        name.len() - 1
    } else {
        last_dot(name.drop_last())
    }
}

/// A name without its extension. A dot at the start begins no extension, and two
/// dots are no name.
pub open spec fn stem_of(name: Seq<char>) -> Seq<char> {
    if last_dot(name) == 0 {
        name
    } else {
        name.take(last_dot(name))
    }
}

/// The last component of a path without its extension, where it is a name.
pub open spec fn file_stem_of(path: Seq<char>) -> Option<Seq<char>> {
    match last_name(path) {
        Some(name) => Some(stem_of(name)),
        None => None,
    }
}

/// The last component of a path without its extension, where it is a name.
pub fn file_stem(path: &str) -> (stem: Option<String>)
    ensures
        stem.deep_view() == file_stem_of(path@),
{
    match file_name(path) {
        Some(name) => {
            let chars = chars_of(name.as_str());
            let mut dot: usize = chars.len();
            assert(chars@.take(dot as int) =~= chars@);
            while dot > 0 && chars[dot - 1] != '.'
                invariant
                    dot <= chars@.len(),
                    last_dot(chars@.take(dot as int)) == last_dot(chars@),
                decreases dot,
            {
                assert(chars@.take(dot as int).drop_last() =~= chars@.take(dot - 1));
                dot -= 1;
            }
            if dot <= 1 {
                Some(name)
            } else {
                let stem = string_of(&chars, 0, dot - 1);
                assert(stem@ =~= chars@.take(dot - 1));
                Some(stem)
            }
        },
        None => None,
    }
}

/// The position of the last of the first `n` segments that says anything, or minus
/// one.
pub open spec fn last_counting(segments: Seq<Seq<char>>, n: int) -> int
    decreases n,
{
    if n <= 0 {
        -1
    } else if counts(segments, n - 1) {
        n - 1
    } else {
        last_counting(segments, n - 1)
    }
}

/// The path that a path lies in, where it lies in one: what is left of it without its
/// last component.
pub open spec fn parent_of(path: Seq<char>) -> Option<Seq<char>> {
    let segments = split(path, '/');
    let last = last_counting(segments, segments.len() as int);
    let before = last_counting(segments, last);
    if last < 0 {
        None
    } else if before < 0 {
        Some(
            if absolute(path) {
                "/"@
            } else {
                Seq::empty()
            },
        )
    } else {
        Some(join(segments.take(before + 1), "/"@))
    }
}

fn last_counting_of(segments: &Vec<String>, n: usize) -> (at: Option<usize>)
    requires
        n <= segments@.len(),
    ensures
        match at {
            Some(at) => at == last_counting(segments.deep_view(), n as int) && at < n,
            None => last_counting(segments.deep_view(), n as int) == -1,
        },
{
    let mut i: usize = n;
    while i > 0
        invariant
            i <= n,
            n <= segments@.len(),
            last_counting(segments.deep_view(), n as int) == last_counting(segments.deep_view(), i as int),
        decreases i,
    {
        let segment = segments[i - 1].as_str();
        assert(segments.deep_view()[i - 1] == segment@);
        if !segment.is_empty() && (i == 1 || !same(segment, ".")) {
            return Some(i - 1);
        }
        i -= 1;
    }
    None
}

/// The path that a path lies in, where it lies in one.
pub fn parent(path: &str) -> (found: Option<String>)
    ensures
        found.deep_view() == parent_of(path@),
{
    let segments = split_on(path, '/');
    let last = match last_counting_of(&segments, segments.len()) {
        Some(last) => last,
        None => {
            return None;
        },
    };
    match last_counting_of(&segments, last) {
        None => if is_absolute(path) {
            Some("/".to_owned())
        } else {
            Some(String::new())
        },
        Some(before) => {
            let count: usize = before + 1;
            let mut front: Vec<String> = Vec::new();
            let mut i: usize = 0;
            while i < count
                invariant
                    i <= count,
                    count <= segments@.len(),
                    front@.len() == i,
                    forall|j: int| 0 <= j < i ==> (#[trigger] front@[j])@ == segments@[j]@,
                decreases count - i,
            {
                front.push(segments[i].clone());
                i += 1;
            }
            assert(front.deep_view() =~= segments.deep_view().take(before + 1));
            Some(joined(&front, "/"))
        },
    }
}

// ---------------------------------------------------------------------------
// Laws
// ---------------------------------------------------------------------------

/// An absolute path stays what it is wherever it is seen from; a relative one comes after
/// the base, with exactly one slash between where the base does not end with one.
pub proof fn law_relative_paths_follow_their_base(base: &str, path: &str, joined: String)
    requires
        call_ensures(join_path, (base, path), joined),
    ensures
        path@.len() > 0 && path@[0] == '/' ==> joined@ == path@,
        base@.len() == 0 ==> joined@ == path@,
        (path@.len() == 0 || path@[0] != '/') && base@.len() > 0 && base@.last() != '/' ==> joined@ == base@ + "/"@
            + path@,
        (path@.len() == 0 || path@[0] != '/') && base@.len() > 0 && base@.last() == '/' ==> joined@ == base@ + path@,
{
    reveal_strlit("/");
    assert(base@.push('/') =~= base@ + "/"@);
}

/// The components of the first segments do not depend on what follows them.
proof fn lemma_components_of_front(segments: Seq<Seq<char>>, more: Seq<char>, n: int)
    requires
        0 <= n <= segments.len(),
    ensures
        components_from(segments.push(more), n) == components_from(segments, n),
    decreases n,
{
    if n > 0 {
        lemma_components_of_front(segments, more, n - 1);
        assert(segments.push(more)[n - 1] == segments[n - 1]);
    }
}

/// A name below a path is one more component; slashes at the end, and dots, are none.
pub proof fn law_a_name_below_a_path_is_a_component(base: Seq<char>, name: Seq<char>)
    requires
        base.len() > 0,
        !name.contains('/'),
    ensures
        name.len() > 0 && name != "."@ ==> components(base + "/"@ + name) == components(base).push(name),
        name.len() == 0 || name == "."@ ==> components(base + "/"@ + name) == components(base),
        absolute(base + "/"@ + name) == absolute(base),
{
    reveal_strlit("/");
    assert("/"@ =~= seq!['/']);
    crate::text::law_split_takes_the_last_part(base, name, '/');
    let segments = split(base, '/');
    crate::text::law_splitting_loses_nothing(base, '/');
    lemma_components_of_front(segments, name, segments.len() as int);
    let all = segments.push(name);
    assert(all.last() == name);
    assert((base + "/"@ + name)[0] == base[0]);
}

/// A slash at the end of a path, and a dot after it, do not make another path.
pub proof fn law_slashes_at_the_end_do_not_matter(base: Seq<char>, equal: bool, a: &str, b: &str)
    requires
        base.len() > 0,
        a@ == base,
        b@ == base + "/"@ || b@ == base + "/"@ + "."@,
        call_ensures(paths_agree, (a, b), equal),
    ensures
        equal,
{
    reveal_strlit(".");
    law_a_name_below_a_path_is_a_component(base, Seq::empty());
    law_a_name_below_a_path_is_a_component(base, "."@);
    assert(base + "/"@ + Seq::<char>::empty() =~= base + "/"@);
}

/// Paths with other last names are other paths.
pub proof fn law_other_names_are_other_paths(base: Seq<char>, name: Seq<char>, other: Seq<char>, a: &str, b: &str, equal: bool)
    requires
        base.len() > 0,
        plain_name(name),
        plain_name(other),
        a@ == base + "/"@ + name,
        b@ == base + "/"@ + other,
        call_ensures(paths_agree, (a, b), equal),
    ensures
        equal == (name == other),
{
    law_a_name_below_a_path_is_a_component(base, name);
    law_a_name_below_a_path_is_a_component(base, other);
    if equal {
        assert(components(base).push(name).last() == name);
        assert(components(base).push(other).last() == other);
    }
}

/// Whether a text is the name of something in a directory.
pub open spec fn plain_name(name: Seq<char>) -> bool {
    name.len() > 0 && !name.contains('/') && name != "."@ && name != ".."@
}

/// The name of what lies below a path is its last component, whether or not a slash
/// follows; the name without the extension is the part before the last dot, where that is
/// not at its start.
pub proof fn law_names_are_last_components(
    base: Seq<char>,
    name: Seq<char>,
    path: &str,
    slashed: &str,
    found: Option<String>,
    found_slashed: Option<String>,
    lone: &str,
    found_lone: Option<String>,
)
    requires
        base.len() > 0,
        plain_name(name),
        path@ == base + "/"@ + name,
        slashed@ == base + "/"@ + name + "/"@,
        lone@ == name,
        call_ensures(file_name, (path,), found),
        call_ensures(file_name, (slashed,), found_slashed),
        call_ensures(file_name, (lone,), found_lone),
    ensures
        found is Some && found->0@ == name,
        found_slashed is Some && found_slashed->0@ == name,
        found_lone is Some && found_lone->0@ == name,
{
    law_a_name_below_a_path_is_a_component(base, name);
    law_a_name_below_a_path_is_a_component(path@, Seq::empty());
    assert(path@ + "/"@ + Seq::<char>::empty() =~= slashed@);
    assert(components(path@).last() == name);
    crate::text::law_split_takes_the_first_part(name, Seq::empty(), '/');
    reveal_with_fuel(components_from, 2);
    assert(components(name) =~= seq![name]);
}

/// Where the last dot of a name stands.
pub proof fn lemma_last_dot(stem: Seq<char>, extension: Seq<char>)
    requires
        !extension.contains('.'),
    ensures
        last_dot(stem + "."@ + extension) == stem.len(),
        last_dot(extension) == 0,
    decreases extension.len(),
{
    reveal_strlit(".");
    let name = stem + "."@ + extension;
    if extension.len() == 0 {
        assert(name.last() == '.');
    } else {
        let front = extension.drop_last();
        assert(extension.contains(extension.last()));
        assert(!front.contains('.')) by {
            if front.contains('.') {
                let i = choose|i: int| 0 <= i < front.len() && front[i] == '.';
                assert(extension[i] == '.');
            }
        }
        lemma_last_dot(stem, front);
        assert(name.last() == extension.last());
        assert(name.drop_last() =~= stem + "."@ + front);
    }
}

/// The name without its extension is what stands before the last dot; a name without a
/// dot, or with its only one at the start, is all of it.
pub proof fn law_extensions_begin_at_the_last_dot(
    base: Seq<char>,
    stem: Seq<char>,
    extension: Seq<char>,
    path: &str,
    found: Option<String>,
    bare: &str,
    found_bare: Option<String>,
)
    requires
        base.len() > 0,
        !extension.contains('.'),
        plain_name(stem + "."@ + extension),
        plain_name(extension),
        path@ == base + "/"@ + (stem + "."@ + extension),
        bare@ == base + "/"@ + extension,
        call_ensures(file_stem, (path,), found),
        call_ensures(file_stem, (bare,), found_bare),
    ensures
        found is Some && found->0@ == (if stem.len() > 0 {
            stem
        } else {
            stem + "."@ + extension
        }),
        found_bare is Some && found_bare->0@ == extension,
{
    let name = stem + "."@ + extension;
    law_a_name_below_a_path_is_a_component(base, name);
    law_a_name_below_a_path_is_a_component(base, extension);
    assert(components(path@).last() == name);
    assert(components(bare@).last() == extension);
    lemma_last_dot(stem, extension);
    assert(name.take(stem.len() as int) =~= stem);
}

/// What the last segment that says anything is, where a name follows.
proof fn lemma_last_counting_front(segments: Seq<Seq<char>>, more: Seq<char>, n: int)
    requires
        0 <= n <= segments.len(),
    ensures
        last_counting(segments.push(more), n) == last_counting(segments, n),
        last_counting(segments, n) < n,
    decreases n,
{
    if n > 0 {
        lemma_last_counting_front(segments, more, n - 1);
        assert(segments.push(more)[n - 1] == segments[n - 1]);
    }
}

/// What lies below a path lies in that path.
pub proof fn law_the_parent_of_a_name_is_its_path(
    base: Seq<char>,
    last: Seq<char>,
    name: Seq<char>,
    path: &str,
    found: Option<String>,
)
    requires
        !last.contains('/'),
        last.len() > 0,
        last != "."@,
        plain_name(name),
        path@ == base + "/"@ + last + "/"@ + name,
        call_ensures(parent, (path,), found),
    ensures
        found is Some && found->0@ == base + "/"@ + last,
{
    reveal_strlit("/");
    assert("/"@ =~= seq!['/']);
    let whole = base + "/"@ + last;
    crate::text::law_split_takes_the_last_part(whole, name, '/');
    crate::text::law_split_takes_the_last_part(base, last, '/');
    crate::text::law_splitting_loses_nothing(whole, '/');
    crate::text::law_splitting_loses_nothing(base, '/');
    let front = split(whole, '/');
    let all = split(path@, '/');
    assert(all == front.push(name));
    assert(front.last() == last);
    assert(all[all.len() - 1] == name);
    assert(all[all.len() - 2] == last);
    assert(counts(all, all.len() - 1));
    assert(counts(all, all.len() - 2));
    assert(all.take(all.len() - 1) =~= front);
}

/// Of two names in one directory the path of the one that comes first comes first, and a path
/// comes before what lies below it.
pub proof fn law_paths_are_ordered_by_their_names(
    base: Seq<char>,
    name: Seq<char>,
    other: Seq<char>,
    a: &str,
    b: &str,
    dir: &str,
    less: bool,
    dir_less: bool,
)
    requires
        base.len() > 0,
        plain_name(name),
        plain_name(other),
        name != other,
        a@ == base + "/"@ + name,
        b@ == base + "/"@ + other,
        dir@ == base,
        call_ensures(path_comes_before, (a, b), less),
        call_ensures(path_comes_before, (dir, a), dir_less),
    ensures
        less == crate::order::before(name, other),
        dir_less,
{
    law_a_name_below_a_path_is_a_component(base, name);
    law_a_name_below_a_path_is_a_component(base, other);
    let common = path_weights(base);
    assert(path_weights(a@) =~= common.push("4"@ + name));
    assert(path_weights(b@) =~= common.push("4"@ + other));
    reveal_strlit("4");
    let (wa, wb) = ("4"@ + name, "4"@ + other);
    assert(wa.drop_first() =~= name && wb.drop_first() =~= other);
    assert(wa[0] == wb[0]);
    if wa == wb {
        assert(wa.drop_first() == wb.drop_first());
    }
    crate::order::law_lists_are_ordered_by_their_members(common, wa, wb);
}

} // verus!
