//! Images of sandboxes that are built from a Dockerfile.

use vstd::prelude::*;
use vstd::string::*;

use crate::order::StringMap;
use crate::paths::{parent, parent_of};
use crate::sandbox::{runs, CommandSpec};
use crate::text::{cat, push_char, trim, trimmed};

verus! {

/// The hexadecimal digit for a number below sixteen.
pub open spec fn hex_digit(n: nat) -> char {
    if n < 10 {
        (48 + n) as char
    } else {
        (87 + n) as char
    }
}

/// The last `width` hexadecimal digits of a number.
pub open spec fn hex_digits(n: nat, width: nat) -> Seq<char>
    decreases width,
{
    if width == 0 {
        Seq::empty()
    } else {
        hex_digits(n / 16, (width - 1) as nat).push(hex_digit(n % 16))
    }
}

fn hex_char(n: u64) -> (c: char)
    requires
        n < 16,
    ensures
        c == hex_digit(n as nat),
{
    if n < 10 {
        ((48 + n) as u8) as char
    } else {
        ((87 + n) as u8) as char
    }
}

fn hex_of(n: u64, width: usize) -> (text: String)
    ensures
        text@ == hex_digits(n as nat, width as nat),
    decreases width,
{
    if width == 0 {
        let text = String::new();
        assert(text@ =~= Seq::empty());
        return text;
    }
    let mut text = hex_of(n / 16, width - 1);
    push_char(&mut text, hex_char(n % 16));
    text
}

/// The name of the image that is built from a Dockerfile whose content has `hash`.
pub open spec fn tag_of(hash: u64) -> Seq<char> {
    "varda-sandbox:"@ + hex_digits(hash as nat, 16)
}

/// The name of the image that is built from a Dockerfile whose content has `hash`.
pub fn image_tag(hash: u64) -> (tag: String)
    ensures
        tag@ == tag_of(hash),
{
    cat("varda-sandbox:", hex_of(hash, 16).as_str())
}

/// How many numbers can be written with `width` hexadecimal digits.
spec fn capacity(width: nat) -> nat
    decreases width,
{
    if width == 0 {
        1
    } else {
        16 * capacity((width - 1) as nat)
    }
}

/// Numbers that are written alike are equal, where their digits suffice.
proof fn lemma_hex_digits_differ(a: nat, b: nat, width: nat)
    requires
        hex_digits(a, width) == hex_digits(b, width),
        a < capacity(width),
        b < capacity(width),
    ensures
        a == b,
    decreases width,
{
    if width > 0 {
        let less = (width - 1) as nat;
        assert(hex_digits(a, width).last() == hex_digit(a % 16));
        assert(hex_digits(b, width).last() == hex_digit(b % 16));
        assert(hex_digits(a, width).drop_last() =~= hex_digits(a / 16, less));
        assert(hex_digits(b, width).drop_last() =~= hex_digits(b / 16, less));
        lemma_hex_digits_differ(a / 16, b / 16, less);
    }
}

/// An image is used again only for a Dockerfile whose content has the same hash.
pub proof fn law_tags_tell_hashes_apart(a: u64, b: u64)
    requires
        tag_of(a) == tag_of(b),
    ensures
        a == b,
{
    let lead = "varda-sandbox:"@;
    let digits_a = hex_digits(a as nat, 16);
    let digits_b = hex_digits(b as nat, 16);
    assert(tag_of(a).skip(lead.len() as int) =~= digits_a);
    assert(tag_of(b).skip(lead.len() as int) =~= digits_b);
    reveal_with_fuel(capacity, 17);
    lemma_hex_digits_differ(a as nat, b as nat, 16);
}

/// The directory that an image is built in: the one that holds the Dockerfile.
pub open spec fn context_dir(dockerfile: Seq<char>) -> Seq<char> {
    match parent_of(dockerfile) {
        Some(dir) => if dir.len() > 0 {
            dir
        } else {
            "."@
        },
        None => "."@,
    }
}

fn context_dir_of(dockerfile: &str) -> (dir: String)
    ensures
        dir@ == context_dir(dockerfile@),
{
    match parent(dockerfile) {
        Some(dir) => if dir.as_str().is_empty() {
            ".".to_owned()
        } else {
            dir
        },
        None => ".".to_owned(),
    }
}

/// The command that succeeds where an image is there.
pub fn image_lookup(tag: &str) -> (command: CommandSpec)
    ensures
        runs(&command, "docker"@, seq!["image"@, "inspect"@, tag@]),
{
    let mut args: Vec<String> = Vec::new();
    args.push("image".to_owned());
    args.push("inspect".to_owned());
    args.push(tag.to_owned());
    assert(args.deep_view() =~= seq!["image"@, "inspect"@, tag@]);
    CommandSpec { program: "docker".to_owned(), args, env: StringMap::new(), cwd: None }
}

/// The command that builds an image.
pub fn image_build(tag: &str, dockerfile: &str) -> (command: CommandSpec)
    ensures
        runs(
            &command,
            "docker"@,
            seq!["build"@, "-q"@, "-t"@, tag@, "-f"@, dockerfile@, context_dir(dockerfile@)],
        ),
{
    let mut args: Vec<String> = Vec::new();
    args.push("build".to_owned());
    args.push("-q".to_owned());
    args.push("-t".to_owned());
    args.push(tag.to_owned());
    args.push("-f".to_owned());
    args.push(dockerfile.to_owned());
    args.push(context_dir_of(dockerfile));
    assert(args.deep_view() =~= seq!["build"@, "-q"@, "-t"@, tag@, "-f"@, dockerfile@, context_dir(dockerfile@)]);
    CommandSpec { program: "docker".to_owned(), args, env: StringMap::new(), cwd: None }
}

/// The report of a Dockerfile that cannot be read.
pub fn unreadable_dockerfile(name: &str, dockerfile: &str) -> (text: String)
    ensures
        text@ == "failed to read Dockerfile '"@ + dockerfile@ + "' for sandbox '"@ + name@ + "'"@,
{
    "failed to read Dockerfile '".to_owned().concat(dockerfile).concat("' for sandbox '").concat(name).concat("'")
}

/// The report of an image that could not be built.
pub fn build_failure(name: &str, status: &str, stderr: &str) -> (text: String)
    ensures
        text@ == "`docker build` for sandbox '"@ + name@ + "' failed with status "@ + status@ + "; stderr: "@ + trim(
            stderr@,
        ),
{
    "`docker build` for sandbox '".to_owned().concat(name).concat("' failed with status ").concat(status).concat(
        "; stderr: ",
    ).concat(trimmed(stderr).as_str())
}

/// An image is built under the tag by which it is looked up, from the Dockerfile that is
/// named, in the directory that this lies in, or else here.
pub proof fn law_images_are_built_where_their_dockerfile_lies(
    tag: &str,
    dockerfile: &str,
    lookup: CommandSpec,
    build: CommandSpec,
    directory: Option<String>,
)
    requires
        call_ensures(image_lookup, (tag,), lookup),
        call_ensures(image_build, (tag, dockerfile), build),
        call_ensures(parent, (dockerfile,), directory),
    ensures
        ({
            let looked = lookup.args.deep_view();
            let built = build.args.deep_view();
            &&& lookup.program@ == "docker"@ && build.program@ == "docker"@
            &&& looked.len() == 3 && looked[0] == "image"@ && looked[1] == "inspect"@ && looked[2] == tag@
            &&& built.len() == 7 && built[0] == "build"@
            &&& built[2] == "-t"@ && built[3] == looked[2]
            &&& built[4] == "-f"@ && built[5] == dockerfile@
            &&& directory is Some && directory->0@.len() > 0 ==> built[6] == directory->0@
            &&& !(directory is Some && directory->0@.len() > 0) ==> built[6] == "."@
        }),
{
}

/// The number that a text stands for, whose characters are hexadecimal digits.
pub open spec fn hex_number(text: Seq<char>) -> int
    decreases text.len(),
{
    if text.len() == 0 {
        0
    } else {
        let c = text.last() as int;
        16 * hex_number(text.drop_last()) + if c < 58 {
            c - 48
        } else {
            c - 87
        }
    }
}

proof fn lemma_hex_number(n: nat, width: nat)
    requires
        n < capacity(width),
    ensures
        hex_number(hex_digits(n, width)) == n,
        hex_digits(n, width).len() == width,
    decreases width,
{
    if width > 0 {
        let less = (width - 1) as nat;
        lemma_hex_number(n / 16, less);
        assert(hex_digits(n, width).drop_last() =~= hex_digits(n / 16, less));
        assert(hex_digits(n, width).last() == hex_digit(n % 16));
    }
}

/// The name of an image ends with the hash of its Dockerfile in sixteen hexadecimal digits.
pub proof fn law_tags_end_with_the_hash(hash: u64, tag: String)
    requires
        call_ensures(image_tag, (hash,), tag),
    ensures
        tag@.len() > 16,
        hex_number(tag@.subrange(tag@.len() - 16, tag@.len() as int)) == hash,
        tag@.subrange(0, tag@.len() - 16) == "varda-sandbox:"@,
{
    reveal_with_fuel(capacity, 17);
    lemma_hex_number(hash as nat, 16);
    let digits = hex_digits(hash as nat, 16);
    reveal_strlit("varda-sandbox:");
    assert(tag@.subrange(tag@.len() - 16, tag@.len() as int) =~= digits);
    assert(tag@.subrange(0, tag@.len() - 16) =~= "varda-sandbox:"@);
}

} // verus!
