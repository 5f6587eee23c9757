//! Excerpts of session logs and of the transcripts that they refer to.

use vstd::prelude::*;
use vstd::string::*;
use vstd::utf8::{encode_utf8, is_char_boundary};

use crate::text::{
    among, decimal, decimal_of, holds_in_order, lemma_two_in_order, lines, lines_of, strip_prefix, trim, trimmed,
    without_prefix,
};

verus! {

/// How much of a session log is read by the interpreter, in bytes.
pub const INTERPRETATION_LOG_BUDGET: usize = 65536;

/// How much of a transcript is read by the interpreter, in bytes.
pub const EXTERNAL_TRANSCRIPT_BUDGET: usize = 98304;

/// Whether `start` is the first place at or after `from` where a character begins,
/// or the end of `bytes`.
pub open spec fn cuts_at(bytes: Seq<u8>, from: int, start: int) -> bool {
    &&& from <= start <= bytes.len()
    &&& is_char_boundary(bytes, start)
    &&& forall|i: int| from <= i < start ==> !is_char_boundary(bytes, i)
}

/// Whether `excerpt` is `content` cut down to its last `budget` bytes: all of it
/// where it is short enough, or else the note `head`, the sizes and the end of
/// `content`, begun at a whole character.
pub open spec fn is_tail(content: Seq<char>, budget: nat, noun: Seq<char>, excerpt: Seq<char>) -> bool {
    let bytes = encode_utf8(content);
    if bytes.len() <= budget {
        excerpt == content
    } else {
        exists|start: int, tail: Seq<char>| {
            &&& #[trigger] cuts_at(bytes, bytes.len() - budget, start)
            &&& #[trigger] encode_utf8(tail) == bytes.subrange(start, bytes.len() as int)
            &&& excerpt == "[truncated: showing last "@ + decimal((bytes.len() - start) as nat) + " bytes of "@
                + decimal(bytes.len()) + " byte "@ + noun + "]\n\n"@ + tail
        }
    }
}

/// The end of `content`.
fn tail_of(content: &str, budget: usize, noun: &str) -> (excerpt: String)
    ensures
        is_tail(content@, budget as nat, noun@, excerpt@),
{
    let size: usize = content.as_bytes().len();
    let ghost bytes = encode_utf8(content@);
    assert(size == bytes.len());
    proof {
        vstd::utf8::encode_utf8_valid_utf8(content@);
        vstd::utf8::is_char_boundary_start_end_of_seq(bytes);
    }
    if size <= budget {
        return content.to_owned();
    }
    let from: usize = size - budget;
    let mut start: usize = from;
    while start < size && !content.is_char_boundary(start)
        invariant
            bytes == encode_utf8(content@),
            size == bytes.len(),
            from <= start <= size,
            forall|i: int| from <= i < start ==> !is_char_boundary(bytes, i),
        decreases size - start,
    {
        start += 1;
    }
    assert(is_char_boundary(bytes, start as int));
    assert(cuts_at(bytes, bytes.len() - budget, start as int));
    let tail = content.split_at(start).1;
    assert(encode_utf8(tail@) == bytes.subrange(start as int, bytes.len() as int));
    "[truncated: showing last ".to_owned().concat(decimal_of((size - start) as u64).as_str()).concat(
        " bytes of ",
    ).concat(decimal_of(size as u64).as_str()).concat(" byte ").concat(noun).concat("]\n\n").concat(tail)
}

/// The end of a transcript.
pub fn tail_excerpt(content: &str, budget: usize) -> (excerpt: String)
    ensures
        is_tail(content@, budget as nat, "transcript"@, excerpt@),
{
    tail_of(content, budget, "transcript")
}

/// The end of a session log.
pub fn session_log_excerpt(content: &str) -> (excerpt: String)
    ensures
        is_tail(content@, INTERPRETATION_LOG_BUDGET as nat, "log"@, excerpt@),
{
    tail_of(content, INTERPRETATION_LOG_BUDGET, "log")
}

/// Cutting keeps the end: the bytes of what is left of `content` are its last ones,
/// and no more than the budget.
pub proof fn law_excerpts_keep_the_end(bytes: Seq<u8>, budget: int, start: int)
    requires
        0 <= budget <= bytes.len(),
        cuts_at(bytes, bytes.len() - budget, start),
    ensures
        bytes.subrange(start, bytes.len() as int).len() <= budget,
        bytes.take(start) + bytes.subrange(start, bytes.len() as int) == bytes,
{
    assert(bytes.take(start) + bytes.subrange(start, bytes.len() as int) =~= bytes);
}

// ---------------------------------------------------------------------------
// References to transcripts
// ---------------------------------------------------------------------------

/// The transcript that a line of a log refers to, where it does.
pub open spec fn reference_of(line: Seq<char>) -> Option<Seq<char>> {
    match without_prefix(trim(line), "external_session_log="@) {
        Some(rest) => if trim(rest).len() > 0 {
            Some(trim(rest))
        } else {
            None
        },
        None => None,
    }
}

/// The transcripts that the lines of a log refer to, each once, in the order of
/// their first mention.
pub open spec fn references(rows: Seq<Seq<char>>) -> Seq<Seq<char>>
    decreases rows.len(),
{
    if rows.len() == 0 {
        Seq::empty()
    } else {
        let front = references(rows.drop_last());
        match reference_of(rows.last()) {
            Some(path) => if front.contains(path) {
                front
            } else {
                front.push(path)
            },
            None => front,
        }
    }
}

/// The transcripts that a log refers to.
pub fn external_references(log: &str) -> (paths: Vec<String>)
    ensures
        paths.deep_view() == references(lines(log@)),
{
    let rows = lines_of(log);
    let ghost all = rows.deep_view();
    let mut paths: Vec<String> = Vec::new();
    let mut i: usize = 0;
    assert(all.take(0) =~= Seq::empty());
    assert(paths.deep_view() =~= Seq::empty());
    while i < rows.len()
        invariant
            all == rows.deep_view(),
            i <= rows@.len(),
            paths.deep_view() == references(all.take(i as int)),
        decreases rows@.len() - i,
    {
        let ghost next = all.take(i + 1);
        let ghost before = paths.deep_view();
        assert(next.drop_last() =~= all.take(i as int));
        assert(next.last() == rows@[i as int]@);
        if let Some(rest) = strip_prefix(trimmed(rows[i].as_str()).as_str(), "external_session_log=") {
            let path = trimmed(rest.as_str());
            if !path.as_str().is_empty() && !among(&paths, path.as_str()) {
                paths.push(path);
                assert(paths.deep_view() =~= before.push(path@));
            }
        }
        i += 1;
    }
    assert(all.take(i as int) =~= all);
    paths
}

/// No transcript is referred to twice.
pub proof fn law_references_are_distinct(rows: Seq<Seq<char>>)
    ensures
        references(rows).no_duplicates(),
    decreases rows.len(),
{
    if rows.len() > 0 {
        law_references_are_distinct(rows.drop_last());
    }
}

/// What was read of a transcript.
#[derive(Debug, PartialEq, Eq)]
pub enum Reading {
    /// Its content.
    Content(String),
    /// Why it could not be read.
    Unreadable(String),
}

/// Whether `section` shows what was read of the transcript at `path`.
pub open spec fn shows(path: Seq<char>, reading: Reading, section: Seq<char>) -> bool {
    match reading {
        Reading::Content(content) => exists|excerpt: Seq<char>| {
            &&& #[trigger] is_tail(content@, EXTERNAL_TRANSCRIPT_BUDGET as nat, "transcript"@, excerpt)
            &&& section == "\n## External transcript\n\nPath: "@ + path + "\n\n```\n"@ + excerpt + "\n```\n"@
        },
        Reading::Unreadable(error) => section == "\n## External transcript\n\nPath: "@ + path
            + "\n\n(varda could not read this transcript: "@ + error@ + ")\n"@,
    }
}

/// Shows what was read of the transcript at `path`.
pub fn transcript_section(path: &str, reading: &Reading) -> (section: String)
    ensures
        shows(path@, *reading, section@),
{
    match reading {
        Reading::Content(content) => {
            let excerpt = tail_excerpt(content.as_str(), EXTERNAL_TRANSCRIPT_BUDGET);
            "\n## External transcript\n\nPath: ".to_owned().concat(path).concat("\n\n```\n").concat(
                excerpt.as_str(),
            ).concat("\n```\n")
        },
        Reading::Unreadable(error) => "\n## External transcript\n\nPath: ".to_owned().concat(path).concat(
            "\n\n(varda could not read this transcript: ",
        ).concat(error.as_str()).concat(")\n"),
    }
}

/// Whether `sections` show, one by one, what was read of all transcripts.
pub open spec fn show_each(readings: Seq<(String, Reading)>, sections: Seq<Seq<char>>) -> bool {
    &&& sections.len() == readings.len()
    &&& forall|i: int|
        0 <= i < readings.len() ==> shows(readings[i].0@, readings[i].1, #[trigger] sections[i])
}

/// Shows what was read of all transcripts, one section after the other.
pub fn transcript_sections(readings: &Vec<(String, Reading)>) -> (text: String)
    ensures
        exists|sections: Seq<Seq<char>>| #[trigger]
            show_each(readings@, sections) && text@ == sections.flatten(),
{
    let mut text = String::new();
    let mut i: usize = 0;
    let ghost mut sections: Seq<Seq<char>> = Seq::empty();
    while i < readings.len()
        invariant
            i <= readings@.len(),
            show_each(readings@.take(i as int), sections),
            text@ == sections.flatten(),
        decreases readings@.len() - i,
    {
        let section = transcript_section(readings[i].0.as_str(), &readings[i].1);
        proof {
            sections.lemma_flatten_push(section@);
            let before = sections;
            sections = sections.push(section@);
            assert forall|j: int| 0 <= j < i + 1 implies shows(
                readings@.take(i + 1)[j].0@,
                readings@.take(i + 1)[j].1,
                #[trigger] sections[j],
            ) by {
                if j < i {
                    assert(sections[j] == before[j]);
                    assert(readings@.take(i as int)[j] == readings@.take(i + 1)[j]);
                }
            }
        }
        text.append(section.as_str());
        i += 1;
    }
    assert(readings@.take(i as int) =~= readings@);
    assert(show_each(readings@, sections));
    text
}

// ---------------------------------------------------------------------------
// Laws
// ---------------------------------------------------------------------------

/// What is read of a text that is within the budget is all of it. Of a longer one it is a note
/// and then the end of the text, of which as much is left out as has to be to keep within the
/// budget and to begin with a whole character.
pub proof fn law_long_texts_are_read_from_their_end(content: &str, budget: usize, excerpt: String)
    requires
        call_ensures(tail_excerpt, (content, budget), excerpt),
    ensures
        ({
            let bytes = encode_utf8(content@);
            &&& bytes.len() <= budget ==> excerpt@ == content@
            &&& bytes.len() > budget ==> exists|tail: Seq<char>|
                #[trigger] tail.is_suffix_of(excerpt@) && encode_utf8(tail).len() <= budget && encode_utf8(
                    tail,
                ).is_suffix_of(bytes) && forall|i: int|
                    bytes.len() - budget <= i < bytes.len() - encode_utf8(tail).len() ==> !is_char_boundary(bytes, i)
        }),
{
    let bytes = encode_utf8(content@);
    if bytes.len() > budget {
        let (start, tail) = choose|start: int, tail: Seq<char>| {
            &&& #[trigger] cuts_at(bytes, bytes.len() - budget, start)
            &&& #[trigger] encode_utf8(tail) == bytes.subrange(start, bytes.len() as int)
            &&& excerpt@ == "[truncated: showing last "@ + decimal((bytes.len() - start) as nat) + " bytes of "@
                + decimal(bytes.len()) + " byte "@ + "transcript"@ + "]\n\n"@ + tail
        };
        assert(excerpt@.subrange(excerpt@.len() - tail.len(), excerpt@.len() as int) =~= tail);
        assert(tail.is_suffix_of(excerpt@));
        assert(encode_utf8(tail).len() == bytes.len() - start);
    }
}

/// Of a session log no more than 64 KiB are read, and of a transcript no more than 96.
pub proof fn law_how_much_is_read()
    ensures
        INTERPRETATION_LOG_BUDGET == 64 * 1024,
        EXTERNAL_TRANSCRIPT_BUDGET == 96 * 1024,
{
}

/// Whether a line refers to the transcript at `path`.
pub open spec fn refers_to(line: Seq<char>, path: Seq<char>) -> bool {
    exists|rest: Seq<char>| trim(line) == #[trigger] ("external_session_log="@ + rest) && trim(rest) == path
        && path.len() > 0
}

proof fn lemma_refers_to(line: Seq<char>, path: Seq<char>)
    ensures
        refers_to(line, path) <==> reference_of(line) == Some(path),
{
    let lead = "external_session_log="@;
    let text = trim(line);
    crate::text::law_holding_is_standing_somewhere(text, lead);
    if refers_to(line, path) {
        let rest = choose|rest: Seq<char>| text == #[trigger] (lead + rest) && trim(rest) == path && path.len() > 0;
        assert(text == lead + rest);
        let found = without_prefix(text, lead)->0;
        assert(text == lead + found);
        assert(found =~= text.skip(lead.len() as int));
        assert(rest =~= text.skip(lead.len() as int));
    }
    if reference_of(line) == Some(path) {
        let found = without_prefix(text, lead)->0;
        assert(text == lead + found);
    }
}

/// Whether line `i` refers to `first`, and no line up to it refers to `second`.
pub open spec fn comes_first(rows: Seq<Seq<char>>, first: Seq<char>, second: Seq<char>, i: int) -> bool {
    &&& 0 <= i < rows.len()
    &&& refers_to(rows[i], first)
    &&& forall|j: int| 0 <= j <= i ==> !refers_to(#[trigger] rows[j], second)
}

/// Whether some line refers to `path`.
pub open spec fn is_referred_to(rows: Seq<Seq<char>>, path: Seq<char>) -> bool {
    exists|i: int| 0 <= i < rows.len() && refers_to(#[trigger] rows[i], path)
}

/// Whether `first` is referred to before `second` is.
pub open spec fn mentioned_before(rows: Seq<Seq<char>>, first: Seq<char>, second: Seq<char>) -> bool {
    exists|i: int| #[trigger] comes_first(rows, first, second, i)
}

/// Whether each of `list` is referred to before those after it.
pub open spec fn in_order_of_mention(rows: Seq<Seq<char>>, list: Seq<Seq<char>>) -> bool {
    forall|a: int, b: int|
        #![trigger list[a], list[b]]
        0 <= a < b < list.len() ==> mentioned_before(rows, list[a], list[b])
}

/// The transcripts of a log are those that its lines refer to, all of them, each once, in the
/// order in which they are first referred to.
pub proof fn law_transcripts_are_those_referred_to(log: &str, paths: Vec<String>)
    requires
        call_ensures(external_references, (log,), paths),
    ensures
        ({
            let rows = lines(log@);
            &&& forall|path: Seq<char>| #[trigger] paths.deep_view().contains(path) <==> is_referred_to(rows, path)
            &&& paths.deep_view().no_duplicates()
            &&& in_order_of_mention(rows, paths.deep_view())
        }),
{
    let rows = lines(log@);
    let all = references(rows);
    assert(paths.deep_view() == all);
    law_references_are_distinct(rows);
    lemma_references(rows);
    assert forall|path: Seq<char>| #[trigger] paths.deep_view().contains(path) <==> is_referred_to(rows, path) by {}
}

proof fn lemma_references(rows: Seq<Seq<char>>)
    ensures
        forall|path: Seq<char>| #[trigger] references(rows).contains(path) <==> is_referred_to(rows, path),
        in_order_of_mention(rows, references(rows)),
    decreases rows.len(),
{
    if rows.len() > 0 {
        let front = rows.drop_last();
        let before = references(front);
        let all = references(rows);
        let last = rows.len() - 1;
        lemma_references(front);
        assert forall|path: Seq<char>| #[trigger] all.contains(path) <==> is_referred_to(rows, path) by {
            lemma_refers_to(rows[last], path);
            if is_referred_to(front, path) {
                let i = choose|i: int| 0 <= i < front.len() && refers_to(#[trigger] front[i], path);
                assert(rows[i] == front[i]);
            }
            if is_referred_to(rows, path) {
                let i = choose|i: int| 0 <= i < rows.len() && refers_to(#[trigger] rows[i], path);
                if i < last {
                    assert(front[i] == rows[i]);
                    assert(is_referred_to(front, path));
                    assert(before.contains(path));
                }
                if before.contains(path) {
                    let k = choose|k: int| 0 <= k < before.len() && before[k] == path;
                    assert(all[k] == path);
                } else {
                    assert(all[before.len() as int] == path);
                }
            }
            if all.contains(path) {
                let k = choose|k: int| 0 <= k < all.len() && all[k] == path;
                if k < before.len() {
                    assert(before[k] == path);
                    assert(before.contains(path));
                    assert(is_referred_to(front, path));
                } else {
                    assert(refers_to(rows[last], path));
                }
            }
        }
        assert(all != before ==> all.drop_last() =~= before);
        lemma_mentions_in_order(rows, all, before);
    }
}

/// One line more keeps the order.
proof fn lemma_mentions_in_order(rows: Seq<Seq<char>>, all: Seq<Seq<char>>, before: Seq<Seq<char>>)
    requires
        rows.len() > 0,
        in_order_of_mention(rows.drop_last(), before),
        forall|path: Seq<char>| #[trigger] before.contains(path) <==> is_referred_to(rows.drop_last(), path),
        all == before || (all.len() == before.len() + 1 && all.drop_last() == before && !before.contains(all.last())),
    ensures
        in_order_of_mention(rows, all),
{
    let front = rows.drop_last();
    assert forall|a: int, b: int|
        #![trigger all[a], all[b]]
        0 <= a < b < all.len() implies mentioned_before(rows, all[a], all[b]) by {
        assert(before[a] == all[a]);
        if b < before.len() {
            assert(before[b] == all[b]);
            assert(mentioned_before(front, before[a], before[b]));
            let i = choose|i: int| #[trigger] comes_first(front, before[a], before[b], i);
            assert forall|j: int| 0 <= j <= i implies !refers_to(#[trigger] rows[j], all[b]) by {
                assert(rows[j] == front[j]);
            }
            assert(rows[i] == front[i]);
            assert(comes_first(rows, all[a], all[b], i));
        } else {
            assert(before.contains(before[a]));
            assert(is_referred_to(front, before[a]));
            let i = choose|i: int| 0 <= i < front.len() && refers_to(#[trigger] front[i], before[a]);
            assert forall|j: int| 0 <= j <= i implies !refers_to(#[trigger] rows[j], all[b]) by {
                assert(rows[j] == front[j]);
                if refers_to(front[j], all[b]) {
                    assert(is_referred_to(front, all[b]));
                    assert(before.contains(all[b]));
                }
            }
            assert(rows[i] == front[i]);
            assert(comes_first(rows, all[a], all[b], i));
        }
    }
}

/// What was read of a transcript is shown under its path: its end, where it could be read, or
/// else why it could not.
pub proof fn law_transcripts_are_shown_under_their_path(path: &str, reading: &Reading, section: String)
    requires
        call_ensures(transcript_section, (path, reading), section),
    ensures
        match reading {
            Reading::Content(content) => encode_utf8(content@).len() <= 96 * 1024 ==> holds_in_order(
                section@,
                seq![path@, content@],
            ),
            Reading::Unreadable(error) => holds_in_order(section@, seq![path@, error@]),
        },
{
    let head = "\n## External transcript\n\nPath: "@;
    match reading {
        Reading::Content(content) => {
            lemma_two_in_order(head, path@, "\n\n```\n"@, content@, "\n```\n"@);
        },
        Reading::Unreadable(error) => {
            lemma_two_in_order(head, path@, "\n\n(varda could not read this transcript: "@, error@, ")\n"@);
        },
    }
}

} // verus!
