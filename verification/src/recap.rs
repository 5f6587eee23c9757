//! The sections of a recap: a heading followed by one item per line.

use vstd::prelude::*;
use vstd::string::*;

use crate::text::{begins, chars_of, lines, lines_of, lower, lowered, same, starts_with, string_of, trim, trimmed};

verus! {

/// `text` without the number signs that it begins with.
pub open spec fn without_hashes(text: Seq<char>) -> Seq<char>
    decreases text.len(),
{
    if text.len() > 0 && text[0] == '#' {
        without_hashes(text.drop_first())
    } else {
        text
    }
}

/// Whether a line is a heading.
pub open spec fn is_heading(line: Seq<char>) -> bool {
    trim(line).len() > 0 && trim(line)[0] == '#'
}

/// The words of a heading.
pub open spec fn title(line: Seq<char>) -> Seq<char> {
    trim(without_hashes(trim(line)))
}

/// The items that `rows` begin with: up to the first blank line or heading.
pub open spec fn leading_items(rows: Seq<Seq<char>>) -> Seq<Seq<char>>
    decreases rows.len(),
{
    if rows.len() == 0 || trim(rows[0]).len() == 0 || is_heading(rows[0]) {
        Seq::empty()
    } else {
        seq![trim(rows[0])] + leading_items(rows.drop_first())
    }
}

/// The items under the first heading `heading`.
pub open spec fn section(rows: Seq<Seq<char>>, heading: Seq<char>) -> Seq<Seq<char>>
    decreases rows.len(),
{
    if rows.len() == 0 {
        Seq::empty()
    } else if is_heading(rows[0]) && title(rows[0]) == heading {
        leading_items(rows.drop_first())
    } else {
        section(rows.drop_first(), heading)
    }
}

/// The words of a heading, where `line` is one.
fn heading_of(line: &str) -> (words: Option<String>)
    ensures
        words.deep_view() == (if is_heading(line@) {
            Some(title(line@))
        } else {
            None
        }),
{
    let inner = trimmed(line);
    let chars = chars_of(inner.as_str());
    if chars.len() == 0 || chars[0] != '#' {
        return None;
    }
    let mut from: usize = 0;
    assert(chars@.skip(0) =~= chars@);
    while from < chars.len() && chars[from] == '#'
        invariant
            from <= chars@.len(),
            without_hashes(chars@.skip(from as int)) == without_hashes(chars@),
        decreases chars@.len() - from,
    {
        assert(chars@.skip(from as int).drop_first() =~= chars@.skip(from + 1));
        from += 1;
    }
    let rest = string_of(&chars, from, chars.len());
    assert(rest@ =~= chars@.skip(from as int));
    Some(trimmed(rest.as_str()))
}

/// The items of `text` under the first heading `heading`.
pub fn section_of(text: &str, heading: &str) -> (items: Vec<String>)
    ensures
        items.deep_view() == section(lines(text@), heading@),
{
    let rows = lines_of(text);
    let ghost all = rows.deep_view();
    let mut i: usize = 0;
    assert(all.skip(0) =~= all);
    while i < rows.len()
        invariant
            all == rows.deep_view(),
            all == lines(text@),
            i <= rows@.len(),
            section(all.skip(i as int), heading@) == section(all, heading@),
        decreases rows@.len() - i,
    {
        assert(all.skip(i as int)[0] == rows@[i as int]@);
        assert(all.skip(i as int).drop_first() =~= all.skip(i + 1));
        if let Some(words) = heading_of(rows[i].as_str()) {
            if same(words.as_str(), heading) {
                return items_from(&rows, i + 1);
            }
        }
        i += 1;
    }
    let items: Vec<String> = Vec::new();
    assert(all.skip(i as int) =~= Seq::empty());
    assert(items.deep_view() =~= Seq::empty());
    items
}

/// The items that the rows from `start` on begin with.
fn items_from(rows: &Vec<String>, start: usize) -> (items: Vec<String>)
    requires
        start <= rows@.len(),
    ensures
        items.deep_view() == leading_items(rows.deep_view().skip(start as int)),
{
    let ghost all = rows.deep_view();
    let mut items: Vec<String> = Vec::new();
    let mut i: usize = start;
    assert(items.deep_view() + leading_items(all.skip(start as int)) =~= leading_items(
        all.skip(start as int),
    ));
    while i < rows.len()
        invariant
            all == rows.deep_view(),
            start <= i <= rows@.len(),
            items.deep_view() + leading_items(all.skip(i as int)) == leading_items(all.skip(start as int)),
        decreases rows@.len() - i,
    {
        assert(all.skip(i as int)[0] == rows@[i as int]@);
        assert(all.skip(i as int).drop_first() =~= all.skip(i + 1));
        let item = trimmed(rows[i].as_str());
        if item.as_str().is_empty() || heading_of(rows[i].as_str()).is_some() {
            assert(leading_items(all.skip(i as int)) =~= Seq::empty());
            assert(items.deep_view() + Seq::<Seq<char>>::empty() =~= items.deep_view());
            return items;
        }
        let ghost before = items.deep_view();
        items.push(item);
        assert(items.deep_view() =~= before.push(item@));
        assert(before.push(item@) + leading_items(all.skip(i + 1)) =~= before + (seq![item@]
            + leading_items(all.skip(i + 1))));
        i += 1;
    }
    assert(all.skip(i as int) =~= Seq::empty());
    assert(items.deep_view() + Seq::<Seq<char>>::empty() =~= items.deep_view());
    items
}

/// The files that a recap reports under `Files touched`.
pub open spec fn files_touched(recap: Seq<char>) -> Seq<Seq<char>> {
    section(lines(recap), "Files touched"@)
}

/// The commands that a recap reports under `Blocked commands`.
pub open spec fn blocked_commands(recap: Seq<char>) -> Seq<Seq<char>> {
    section(lines(recap), "Blocked commands"@)
}

/// The files that a recap reports under `Files touched`.
pub fn parse_files_touched(recap: &str) -> (files: Vec<String>)
    ensures
        files.deep_view() == files_touched(recap@),
{
    section_of(recap, "Files touched")
}

/// The commands that a recap reports under `Blocked commands`.
pub fn parse_blocked_commands(recap: &str) -> (commands: Vec<String>)
    ensures
        commands.deep_view() == blocked_commands(recap@),
{
    section_of(recap, "Blocked commands")
}

/// Whether `c` is decoration around words: a star, a colon, a hyphen, a number sign,
/// a blank, an underscore or a backtick.
pub open spec fn decoration(c: char) -> bool {
    c == '*' || c == ':' || c == '-' || c == '#' || c == ' ' || c == '_' || c == '`'
}

/// `text` without the decoration that it begins with.
pub open spec fn undecorated(text: Seq<char>) -> Seq<char>
    decreases text.len(),
{
    if text.len() > 0 && decoration(text[0]) {
        undecorated(text.drop_first())
    } else {
        text
    }
}

fn undecorated_of(text: &str) -> (rest: String)
    ensures
        rest@ == undecorated(text@),
{
    let chars = chars_of(text);
    let mut from: usize = 0;
    assert(chars@.skip(0) =~= chars@);
    while from < chars.len() && (chars[from] == '*' || chars[from] == ':' || chars[from] == '-' || chars[from]
        == '#' || chars[from] == ' ' || chars[from] == '_' || chars[from] == '`')
        invariant
            from <= chars@.len(),
            undecorated(chars@.skip(from as int)) == undecorated(chars@),
        decreases chars@.len() - from,
    {
        assert(chars@.skip(from as int).drop_first() =~= chars@.skip(from + 1));
        from += 1;
    }
    let rest = string_of(&chars, from, chars.len());
    assert(rest@ =~= chars@.skip(from as int));
    rest
}

/// The question that a recap answers.
pub const USER_QUESTION: &'static str = "user interaction required";

/// Whether the answer to the question stands on the line itself, after the
/// question, or else on the next line, and is yes.
pub open spec fn answers_yes(rows: Seq<Seq<char>>, i: int) -> bool {
    let line = undecorated(lower(rows[i]));
    if !begins(line, USER_QUESTION@) {
        false
    } else {
        let answer = undecorated(line.skip(USER_QUESTION@.len() as int));
        if answer.len() > 0 {
            begins(answer, "yes"@)
        } else {
            i + 1 < rows.len() && begins(undecorated(lower(rows[i + 1])), "yes"@)
        }
    }
}

/// Whether a recap says that the user is needed.
pub open spec fn asks_for_user(recap: Seq<char>) -> bool {
    exists|i: int| 0 <= i < lines(recap).len() && #[trigger] answers_yes(lines(recap), i)
}

/// Whether a recap says that the user is needed.
pub fn recap_requires_user_interaction(recap: &str) -> (asks: bool)
    ensures
        asks == asks_for_user(recap@),
{
    let rows = lines_of(recap);
    let ghost all = rows.deep_view();
    let mut i: usize = 0;
    while i < rows.len()
        invariant
            all == rows.deep_view(),
            all == lines(recap@),
            i <= rows@.len(),
            forall|j: int| 0 <= j < i ==> !answers_yes(all, j),
        decreases rows@.len() - i,
    {
        assert(all[i as int] == rows@[i as int]@);
        let line = undecorated_of(lowered(rows[i].as_str()).as_str());
        if let Some(rest) = crate::text::strip_prefix(line.as_str(), USER_QUESTION) {
            let answer = undecorated_of(rest.as_str());
            let yes = if !answer.as_str().is_empty() {
                starts_with(answer.as_str(), "yes")
            } else if i + 1 < rows.len() {
                assert(all[i + 1] == rows@[i + 1]@);
                let next = undecorated_of(lowered(rows[i + 1].as_str()).as_str());
                starts_with(next.as_str(), "yes")
            } else {
                false
            };
            assert(yes == answers_yes(all, i as int));
            if yes {
                return true;
            }
        }
        i += 1;
    }
    false
}

// ---------------------------------------------------------------------------
// Laws
// ---------------------------------------------------------------------------

/// Whether a text is made of nothing but decoration: stars, colons, hyphens, number signs,
/// blanks, underscores and backticks.
pub open spec fn mere_decoration(text: Seq<char>) -> bool {
    forall|i: int| 0 <= i < text.len() ==> seq!['*', ':', '-', '#', ' ', '_', '`'].contains(#[trigger] text[i])
}

/// What is taken off a text is decoration, and what is left begins with none.
proof fn lemma_undecorated(text: Seq<char>)
    ensures
        exists|lead: Seq<char>| mere_decoration(lead) && text == #[trigger] (lead + undecorated(text)),
        undecorated(text).len() > 0 ==> !decoration(undecorated(text)[0]),
    decreases text.len(),
{
    if text.len() > 0 && decoration(text[0]) {
        let rest = text.drop_first();
        lemma_undecorated(rest);
        let lead = choose|lead: Seq<char>| mere_decoration(lead) && rest == #[trigger] (lead + undecorated(rest));
        let whole = seq![text[0]] + lead;
        let kept = undecorated(rest);
        assert(text =~= seq![text[0]] + rest);
        assert(seq![text[0]] + (lead + kept) =~= whole + kept);
        assert(undecorated(text) == kept);
        lemma_decoration(text[0]);
        assert(mere_decoration(whole));
    } else {
        assert(text =~= Seq::<char>::empty() + undecorated(text));
        assert(mere_decoration(Seq::<char>::empty()));
    }
}

proof fn lemma_decoration(c: char)
    ensures
        decoration(c) == seq!['*', ':', '-', '#', ' ', '_', '`'].contains(c),
{
    let all = seq!['*', ':', '-', '#', ' ', '_', '`'];
    assert(all[0] == '*' && all[1] == ':' && all[2] == '-' && all[3] == '#' && all[4] == ' ' && all[5] == '_' && all[6]
        == '`');
}

/// Decoration before something else is all that is taken off.
proof fn lemma_undecorated_is(lead: Seq<char>, rest: Seq<char>)
    requires
        mere_decoration(lead),
        rest.len() > 0 ==> !decoration(rest[0]),
    ensures
        undecorated(lead + rest) == rest,
    decreases lead.len(),
{
    if lead.len() > 0 {
        assert(seq!['*', ':', '-', '#', ' ', '_', '`'].contains(lead[0]));
        lemma_decoration(lead[0]);
        assert((lead + rest).drop_first() =~= lead.drop_first() + rest);
        assert forall|i: int| 0 <= i < lead.drop_first().len() implies seq![
            '*',
            ':',
            '-',
            '#',
            ' ',
            '_',
            '`',
        ].contains(#[trigger] lead.drop_first()[i]) by {
            assert(lead[i + 1] == lead.drop_first()[i]);
        }
        lemma_undecorated_is(lead.drop_first(), rest);
    } else {
        assert(lead + rest =~= rest);
    }
}

/// Whether line `i` asks whether the user is needed and the answer is yes: whatever the
/// case of its letters, it is the question, after mere decoration, and then, after mere
/// decoration, `yes`; or nothing, and the next line begins, after mere decoration, with
/// `yes`.
pub open spec fn user_is_needed_at(rows: Seq<Seq<char>>, i: int) -> bool {
    exists|lead: Seq<char>, middle: Seq<char>, rest: Seq<char>|
        mere_decoration(lead) && mere_decoration(middle) && lower(rows[i]) == #[trigger] (lead
            + "user interaction required"@ + middle + rest) && (begins(rest, "yes"@) || (rest.len() == 0 && i + 1
            < rows.len() && begins_with_yes(lower(rows[i + 1]))))
}

/// Whether a text begins, after mere decoration, with `yes`.
pub open spec fn begins_with_yes(text: Seq<char>) -> bool {
    exists|lead: Seq<char>, rest: Seq<char>| mere_decoration(lead) && text == #[trigger] (lead + "yes"@ + rest)
}

proof fn lemma_begins_with_yes(text: Seq<char>)
    ensures
        begins_with_yes(text) <==> begins(undecorated(text), "yes"@),
{
    reveal_strlit("yes");
    if begins_with_yes(text) {
        let (lead, rest) = choose|lead: Seq<char>, rest: Seq<char>|
            mere_decoration(lead) && text == #[trigger] (lead + "yes"@ + rest);
        assert(lead + "yes"@ + rest =~= lead + ("yes"@ + rest));
        lemma_undecorated_is(lead, "yes"@ + rest);
        assert(undecorated(text).subrange(0, 3) =~= "yes"@);
    }
    if begins(undecorated(text), "yes"@) {
        lemma_undecorated(text);
        let lead = choose|lead: Seq<char>| mere_decoration(lead) && text == #[trigger] (lead + undecorated(text));
        let rest = undecorated(text).skip(3);
        assert(undecorated(text) =~= "yes"@ + rest);
        assert(text =~= lead + "yes"@ + rest);
    }
}

/// A recap asks for the user exactly where one of its lines says that the user is needed.
pub proof fn law_recaps_ask_for_the_user(recap: &str, asks: bool)
    requires
        call_ensures(recap_requires_user_interaction, (recap,), asks),
    ensures
        asks <==> exists|i: int| 0 <= i < lines(recap@).len() && #[trigger] user_is_needed_at(lines(recap@), i),
{
    let rows = lines(recap@);
    assert forall|i: int| 0 <= i < rows.len() implies #[trigger] user_is_needed_at(rows, i) == answers_yes(
        rows,
        i,
    ) by {
        lemma_user_is_needed_at(rows, i);
    }
    if asks {
        let i = choose|i: int| 0 <= i < rows.len() && #[trigger] answers_yes(rows, i);
        assert(user_is_needed_at(rows, i));
    }
    if exists|i: int| 0 <= i < rows.len() && #[trigger] user_is_needed_at(rows, i) {
        let i = choose|i: int| 0 <= i < rows.len() && #[trigger] user_is_needed_at(rows, i);
        assert(answers_yes(rows, i));
    }
}

proof fn lemma_user_is_needed_at(rows: Seq<Seq<char>>, i: int)
    requires
        0 <= i < rows.len(),
    ensures
        user_is_needed_at(rows, i) <==> answers_yes(rows, i),
{
    reveal_strlit("user interaction required");
    reveal_strlit("yes");
    let question = "user interaction required"@;
    let text = lower(rows[i]);
    let line = undecorated(text);
    if i + 1 < rows.len() {
        lemma_begins_with_yes(lower(rows[i + 1]));
    }
    if user_is_needed_at(rows, i) {
        let (lead, middle, rest) = choose|lead: Seq<char>, middle: Seq<char>, rest: Seq<char>|
            mere_decoration(lead) && mere_decoration(middle) && text == #[trigger] (lead + question + middle + rest) && (
            begins(rest, "yes"@) || (rest.len() == 0 && i + 1 < rows.len() && begins_with_yes(lower(rows[i + 1]))));
        assert(lead + question + middle + rest =~= lead + (question + (middle + rest)));
        lemma_undecorated_is(lead, question + (middle + rest));
        assert(line.subrange(0, question.len() as int) =~= question);
        assert(line.skip(question.len() as int) =~= middle + rest);
        if rest.len() > 0 {
            assert(rest[0] == rest.subrange(0, 3)[0]);
        }
        lemma_undecorated_is(middle, rest);
    }
    if answers_yes(rows, i) {
        lemma_undecorated(text);
        let lead = choose|lead: Seq<char>| mere_decoration(lead) && text == #[trigger] (lead + line);
        let after = line.skip(question.len() as int);
        assert(line =~= question + after);
        lemma_undecorated(after);
        let rest = undecorated(after);
        let middle = choose|middle: Seq<char>| mere_decoration(middle) && after == #[trigger] (middle + rest);
        assert(text =~= lead + question + middle + rest);
    }
}

/// Whether a line is a heading of the words `heading`: number signs, and then the words.
pub open spec fn heads(line: Seq<char>, heading: Seq<char>) -> bool {
    exists|signs: Seq<char>, rest: Seq<char>|
        signs.len() > 0 && (forall|i: int| 0 <= i < signs.len() ==> #[trigger] signs[i] == '#') && (rest.len() > 0
            ==> rest[0] != '#') && trim(line) == #[trigger] (signs + rest) && trim(rest) == heading
}

proof fn lemma_without_hashes(text: Seq<char>)
    ensures
        exists|signs: Seq<char>|
            (forall|i: int| 0 <= i < signs.len() ==> #[trigger] signs[i] == '#') && text == #[trigger] (signs
                + without_hashes(text)) && (text.len() > 0 && text[0] == '#' ==> signs.len() > 0),
        without_hashes(text).len() > 0 ==> without_hashes(text)[0] != '#',
    decreases text.len(),
{
    if text.len() > 0 && text[0] == '#' {
        let rest = text.drop_first();
        lemma_without_hashes(rest);
        let signs = choose|signs: Seq<char>|
            (forall|i: int| 0 <= i < signs.len() ==> #[trigger] signs[i] == '#') && rest == #[trigger] (signs
                + without_hashes(rest)) && (rest.len() > 0 && rest[0] == '#' ==> signs.len() > 0);
        let all = seq!['#'] + signs;
        let kept = without_hashes(rest);
        assert(text =~= seq!['#'] + rest);
        assert(seq!['#'] + (signs + kept) =~= all + kept);
        assert(without_hashes(text) == kept);
        assert forall|i: int| 0 <= i < all.len() implies #[trigger] all[i] == '#' by {
            if i > 0 {
                assert(signs[i - 1] == '#');
            }
        }
    } else {
        assert(text =~= Seq::<char>::empty() + without_hashes(text));
    }
}

proof fn lemma_without_hashes_is(signs: Seq<char>, rest: Seq<char>)
    requires
        forall|i: int| 0 <= i < signs.len() ==> #[trigger] signs[i] == '#',
        rest.len() > 0 ==> rest[0] != '#',
    ensures
        without_hashes(signs + rest) == rest,
    decreases signs.len(),
{
    if signs.len() > 0 {
        assert(signs[0] == '#');
        assert((signs + rest).drop_first() =~= signs.drop_first() + rest);
        assert forall|i: int| 0 <= i < signs.drop_first().len() implies #[trigger] signs.drop_first()[i] == '#' by {
            assert(signs[i + 1] == '#');
        }
        lemma_without_hashes_is(signs.drop_first(), rest);
    } else {
        assert(signs + rest =~= rest);
    }
}

proof fn lemma_heads(line: Seq<char>, heading: Seq<char>)
    ensures
        heads(line, heading) <==> is_heading(line) && title(line) == heading,
{
    let text = trim(line);
    if heads(line, heading) {
        let (signs, rest) = choose|signs: Seq<char>, rest: Seq<char>|
            signs.len() > 0 && (forall|i: int| 0 <= i < signs.len() ==> #[trigger] signs[i] == '#') && (rest.len() > 0
                ==> rest[0] != '#') && text == #[trigger] (signs + rest) && trim(rest) == heading;
        lemma_without_hashes_is(signs, rest);
        assert(text[0] == signs[0]);
    }
    if is_heading(line) && title(line) == heading {
        lemma_without_hashes(text);
        let signs = choose|signs: Seq<char>|
            (forall|i: int| 0 <= i < signs.len() ==> #[trigger] signs[i] == '#') && text == #[trigger] (signs
                + without_hashes(text)) && (text.len() > 0 && text[0] == '#' ==> signs.len() > 0);
        assert(text == signs + without_hashes(text));
    }
}

/// Whether `items` are the lines from `from` on, without blanks at either end, up to the
/// first that is blank or begins with a number sign.
pub open spec fn items_at(rows: Seq<Seq<char>>, from: int, items: Seq<Seq<char>>) -> bool {
    &&& from + items.len() <= rows.len()
    &&& forall|i: int|
        0 <= i < items.len() ==> (#[trigger] items[i]) == trim(rows[from + i]) && items[i].len() > 0 && items[i][0] != '#'
    &&& from + items.len() < rows.len() ==> {
        let next = trim(rows[from + items.len()]);
        next.len() == 0 || next[0] == '#'
    }
}

proof fn lemma_leading_items(rows: Seq<Seq<char>>)
    ensures
        items_at(rows, 0, leading_items(rows)),
    decreases rows.len(),
{
    if !(rows.len() == 0 || trim(rows[0]).len() == 0 || is_heading(rows[0])) {
        let rest = rows.drop_first();
        lemma_leading_items(rest);
        let items = leading_items(rows);
        assert forall|i: int| 0 <= i < items.len() implies (#[trigger] items[i]) == trim(rows[0 + i]) && items[i].len()
            > 0 && items[i][0] != '#' by {
            if i > 0 {
                assert(items[i] == leading_items(rest)[i - 1]);
                assert(rest[i - 1] == rows[i]);
            }
        }
    }
}

/// The items of a section are the lines after the first heading of its words, up to the
/// first blank line or the next heading; where there is no such heading there are none.
pub proof fn law_sections_are_read_from_their_heading(text: &str, heading: &str, items: Vec<String>)
    requires
        call_ensures(section_of, (text, heading), items),
    ensures
        ({
            let rows = lines(text@);
            ||| items@.len() == 0 && forall|i: int| 0 <= i < rows.len() ==> !heads(#[trigger] rows[i], heading@)
            ||| exists|h: int|
                0 <= h < rows.len() && heads(#[trigger] rows[h], heading@) && items_at(rows, h + 1, items.deep_view())
                    && forall|i: int| 0 <= i < h ==> !heads(#[trigger] rows[i], heading@)
        }),
{
    lemma_section(lines(text@), heading@);
}

proof fn lemma_section(rows: Seq<Seq<char>>, heading: Seq<char>)
    ensures
        ({
            let items = section(rows, heading);
            ||| items.len() == 0 && forall|i: int| 0 <= i < rows.len() ==> !heads(#[trigger] rows[i], heading)
            ||| exists|h: int|
                0 <= h < rows.len() && heads(#[trigger] rows[h], heading) && items_at(rows, h + 1, items) && forall|
                    i: int,
                |
                    0 <= i < h ==> !heads(#[trigger] rows[i], heading)
        }),
    decreases rows.len(),
{
    let items = section(rows, heading);
    if rows.len() > 0 {
        let rest = rows.drop_first();
        lemma_heads(rows[0], heading);
        if heads(rows[0], heading) {
            lemma_leading_items(rest);
            assert forall|i: int| 0 <= i < items.len() implies (#[trigger] items[i]) == trim(rows[1 + i])
                && items[i].len() > 0 && items[i][0] != '#' by {
                assert(rest[i] == rows[1 + i]);
            }
            if 1 + items.len() < rows.len() {
                assert(rest[items.len() as int] == rows[(1 + items.len()) as int]);
            }
            assert(items_at(rows, 1, items));
        } else {
            lemma_section(rest, heading);
            if items.len() == 0 && forall|i: int| 0 <= i < rest.len() ==> !heads(#[trigger] rest[i], heading) {
                assert forall|i: int| 0 <= i < rows.len() implies !heads(#[trigger] rows[i], heading) by {
                    if i > 0 {
                        assert(rest[i - 1] == rows[i]);
                    }
                }
            } else {
                let h = choose|h: int|
                    0 <= h < rest.len() && heads(#[trigger] rest[h], heading) && items_at(rest, h + 1, items) && forall|
                        i: int,
                    |
                        0 <= i < h ==> !heads(#[trigger] rest[i], heading);
                assert(rest[h] == rows[h + 1]);
                assert forall|i: int| 0 <= i < h + 1 implies !heads(#[trigger] rows[i], heading) by {
                    if i > 0 {
                        assert(rest[i - 1] == rows[i]);
                    }
                }
                assert forall|i: int| 0 <= i < items.len() implies (#[trigger] items[i]) == trim(rows[h + 2 + i])
                    && items[i].len() > 0 && items[i][0] != '#' by {
                    assert(rest[h + 1 + i] == rows[h + 2 + i]);
                }
                if h + 2 + items.len() < rows.len() {
                    assert(rest[h + 1 + items.len()] == rows[h + 2 + items.len()]);
                }
                assert(items_at(rows, h + 2, items));
                assert(heads(rows[h + 1], heading));
            }
        }
    }
}

/// The files that an agent touched stand under `Files touched` in its recap, and the
/// commands that it was denied under `Blocked commands`.
pub proof fn law_recaps_name_files_and_commands(
    recap: &str,
    files: Vec<String>,
    commands: Vec<String>,
    files_heading: &str,
    commands_heading: &str,
    under_files: Vec<String>,
    under_commands: Vec<String>,
)
    requires
        call_ensures(parse_files_touched, (recap,), files),
        call_ensures(parse_blocked_commands, (recap,), commands),
        files_heading@ == "Files touched"@,
        commands_heading@ == "Blocked commands"@,
        call_ensures(section_of, (recap, files_heading), under_files),
        call_ensures(section_of, (recap, commands_heading), under_commands),
    ensures
        files.deep_view() == under_files.deep_view(),
        commands.deep_view() == under_commands.deep_view(),
{
}

} // verus!
