//! Reading values: members of objects, items of lists, words and lines of texts.
use vstd::prelude::*;
use vstd::string::*;

use crate::activity::{first_where, items_in};
use crate::discord::{cleaned, last_where, printable};
use crate::json::{
    equal_values, first_member, has_member, list_in, member, text_in, unsigned_in, JsonView,
};
use crate::text::{
    after, before, begins, blank, control, ends, find, halves, join, joined_rest, lemma_find,
    lemma_trim_start, lines, space, trim_end, trim_start, trimmed,
};

verus! {

/// Whether the member at this place is the first of its name.
pub open spec fn leads(members: Seq<(Seq<char>, JsonView)>, name: Seq<char>, i: int) -> bool {
    &&& 0 <= i < members.len()
    &&& members[i].0 == name
    &&& forall|j: int| 0 <= j < i ==> (#[trigger] members[j]).0 != name
}

/// A member of an object is the first of its name; where there is none, and of everything that
/// is no object, it is null.
pub proof fn law_members_are_found(value: JsonView, name: Seq<char>)
    ensures
        match value {
            JsonView::Object(members) => {
                &&& forall|i: int|
                    #[trigger] leads(members, name, i) ==> member(value, name) == members[i].1
                &&& (forall|i: int| 0 <= i < members.len() ==> (#[trigger] members[i]).0 != name)
                    ==> member(value, name) == JsonView::Null
            },
            _ => member(value, name) == JsonView::Null,
        },
        has_member(value, name) <==> value is Object && exists|i: int|
            #[trigger] leads(value->Object_0, name, i),
{
    if let JsonView::Object(members) = value {
        lemma_first_member(members, name);
        if has_member(value, name) {
            lemma_some_leads(members, name);
        }
        if exists|i: int| #[trigger] leads(members, name, i) {
            let i = choose|i: int| #[trigger] leads(members, name, i);
            assert(members[i].0 == name);
        }
    }
}

proof fn lemma_some_leads(members: Seq<(Seq<char>, JsonView)>, name: Seq<char>)
    requires
        exists|i: int| 0 <= i < members.len() && (#[trigger] members[i]).0 == name,
    ensures
        exists|i: int| #[trigger] leads(members, name, i),
    decreases members.len(),
{
    if members[0].0 == name {
        assert(leads(members, name, 0));
    } else {
        let rest = members.drop_first();
        let i = choose|i: int| 0 <= i < members.len() && (#[trigger] members[i]).0 == name;
        assert(rest[i - 1].0 == name);
        lemma_some_leads(rest, name);
        let k = choose|k: int| #[trigger] leads(rest, name, k);
        assert forall|j: int| 0 <= j < k + 1 implies (#[trigger] members[j]).0 != name by {
            if j > 0 {
                assert(rest[j - 1] == members[j]);
            }
        }
        assert(rest[k] == members[k + 1]);
        assert(leads(members, name, k + 1));
    }
}

proof fn lemma_first_member(members: Seq<(Seq<char>, JsonView)>, name: Seq<char>)
    ensures
        forall|i: int|
            #[trigger] leads(members, name, i) ==> first_member(members, name) == members[i].1,
        (forall|i: int| 0 <= i < members.len() ==> (#[trigger] members[i]).0 != name)
            ==> first_member(members, name) == JsonView::Null,
    decreases members.len(),
{
    if members.len() > 0 && members[0].0 != name {
        let rest = members.drop_first();
        lemma_first_member(rest, name);
        assert forall|i: int| #[trigger] leads(members, name, i) implies first_member(members, name)
            == members[i].1 by {
            assert forall|j: int| 0 <= j < i - 1 implies (#[trigger] rest[j]).0 != name by {
                assert(rest[j] == members[j + 1]);
            }
            assert(rest[i - 1] == members[i]);
            assert(leads(rest, name, i - 1));
        }
        if forall|i: int| 0 <= i < members.len() ==> (#[trigger] members[i]).0 != name {
            assert forall|i: int| 0 <= i < rest.len() implies (#[trigger] rest[i]).0 != name by {
                assert(rest[i] == members[i + 1]);
            }
        }
    } else if members.len() > 0 {
        assert forall|i: int| #[trigger] leads(members, name, i) implies i == 0 by {
            if i > 0 {
                assert(members[0].0 != name);
            }
        }
    }
}

/// A value is read as what it is, and as nothing else.
pub proof fn law_values_are_read_as_they_are(value: JsonView)
    ensures
        forall|t: Seq<char>| text_in(value) == Some(t) <==> value == JsonView::Text(t),
        forall|n: u64| unsigned_in(value) == Some(n) <==> value == JsonView::Unsigned(n),
        forall|l: Seq<JsonView>| list_in(value) == Some(l) <==> value == JsonView::List(l),
{
}

/// The items of a list among the members are all of its items.
pub proof fn law_lists_are_read_whole(data: JsonView, name: Seq<char>, items: Seq<JsonView>)
    ensures
        member(data, name) == JsonView::List(items) ==> items_in(data, name) == items,
        !(member(data, name) is List) ==> items_in(data, name).len() == 0,
{
}

/// The first item that passes a test is the one before which none passes.
pub proof fn law_the_first_is_found(items: Seq<JsonView>, test: spec_fn(JsonView) -> bool)
    ensures
        first_where(items, test) matches Some(found) ==> exists|i: int|
            0 <= i < items.len() && #[trigger] items[i] == found && test(found) && forall|j: int|
                0 <= j < i ==> !test(#[trigger] items[j]),
        first_where(items, test) is None <==> forall|i: int|
            0 <= i < items.len() ==> !test(#[trigger] items[i]),
    decreases items.len(),
{
    if items.len() > 0 {
        if test(items[0]) {
            assert(items[0] == first_where(items, test)->0);
        } else {
            let rest = items.drop_first();
            law_the_first_is_found(rest, test);
            assert forall|i: int| 0 <= i < rest.len() implies #[trigger] rest[i] == items[i + 1] by {}
            if first_where(items, test) is Some {
                let found = first_where(items, test)->0;
                let i = choose|i: int|
                    0 <= i < rest.len() && #[trigger] rest[i] == found && test(found) && forall|
                        j: int,
                    |
                        0 <= j < i ==> !test(#[trigger] rest[j]);
                assert(items[i + 1] == found);
                assert forall|j: int| 0 <= j < i + 1 implies !test(#[trigger] items[j]) by {
                    if j > 0 {
                        assert(!test(rest[j - 1]));
                    }
                }
            } else {
                assert forall|i: int| 0 <= i < items.len() implies !test(#[trigger] items[i]) by {
                    if i > 0 {
                        assert(!test(rest[i - 1]));
                    }
                }
            }
        }
    }
}

/// The last item that passes a test is the one behind which none passes.
pub proof fn law_the_last_is_found(items: Seq<JsonView>, test: spec_fn(JsonView) -> bool)
    ensures
        last_where(items, test) matches Some(found) ==> exists|i: int|
            0 <= i < items.len() && #[trigger] items[i] == found && test(found) && forall|j: int|
                i < j < items.len() ==> !test(#[trigger] items[j]),
        last_where(items, test) is None <==> forall|i: int|
            0 <= i < items.len() ==> !test(#[trigger] items[i]),
    decreases items.len(),
{
    if items.len() > 0 {
        let end = items.len() - 1;
        if test(items.last()) {
            assert(items[end] == last_where(items, test)->0);
        } else {
            let front = items.drop_last();
            law_the_last_is_found(front, test);
            assert forall|i: int| 0 <= i < front.len() implies #[trigger] front[i] == items[i] by {}
            if last_where(items, test) is Some {
                let found = last_where(items, test)->0;
                let i = choose|i: int|
                    0 <= i < front.len() && #[trigger] front[i] == found && test(found) && forall|
                        j: int,
                    |
                        i < j < front.len() ==> !test(#[trigger] front[j]);
                assert(items[i] == found);
                assert forall|j: int| i < j < items.len() implies !test(#[trigger] items[j]) by {
                    if j < end {
                        assert(!test(front[j]));
                    }
                }
            } else {
                assert forall|i: int| 0 <= i < items.len() implies !test(#[trigger] items[i]) by {
                    if i < end {
                        assert(!test(front[i]));
                    }
                }
            }
        }
    }
}

/// A text without control characters and mentions that is short enough is published as it is;
/// of any other text, what is published is its characters in order, as far as they fit, the
/// control characters left out and each commercial at in its wide form.
pub proof fn law_cleaned_keeps_the_text(text: Seq<char>, max: nat)
    ensures
        ({
            let kept = text.filter(|c: char| !control(c));
            let out = cleaned(text, max);
            &&& out.len() == (if kept.len() <= max {
                kept.len()
            } else {
                max
            })
            &&& forall|i: int|
                0 <= i < out.len() ==> #[trigger] out[i] == (if kept[i] == '@' {
                    '＠'
                } else {
                    kept[i]
                })
        }),
        text.len() <= max && (forall|i: int|
            0 <= i < text.len() ==> !control(#[trigger] text[i]) && text[i] != '@') ==> cleaned(
            text,
            max,
        ) == text,
{
    assert(printable() =~= (|c: char| !control(c)));
    if forall|i: int| 0 <= i < text.len() ==> !control(#[trigger] text[i]) && text[i] != '@' {
        lemma_filter_all(text);
        if text.len() <= max {
            assert(cleaned(text, max) =~= text);
        }
    }
}

proof fn lemma_filter_all(text: Seq<char>)
    requires
        forall|i: int| 0 <= i < text.len() ==> !control(#[trigger] text[i]),
    ensures
        text.filter(printable()) == text,
    decreases text.len(),
{
    reveal(Seq::filter);
    if text.len() > 0 {
        let front = text.drop_last();
        assert forall|i: int| 0 <= i < front.len() implies !control(#[trigger] front[i]) by {
            assert(front[i] == text[i]);
        }
        lemma_filter_all(front);
        assert(front.push(text.last()) =~= text);
    }
}

/// Trimming takes away white space at both ends, and nothing else.
pub proof fn law_trimming_keeps_the_middle(text: Seq<char>)
    ensures
        exists|i: int, j: int|
            0 <= i <= j <= text.len() && trimmed(text) == #[trigger] text.subrange(i, j) && blank(
                text.take(i),
            ) && blank(text.skip(j)),
        trimmed(text).len() > 0 ==> !space(trimmed(text)[0]) && !space(trimmed(text).last()),
        trimmed(text).len() == 0 <==> blank(text),
{
    lemma_trim_start(text);
    let body = trim_start(text);
    let i = text.len() - body.len();
    lemma_trim_start_blank(text);
    lemma_trim_end(body);
    let out = trim_end(body);
    let j = i + out.len();
    assert(out =~= text.subrange(i, j));
    assert(blank(text.skip(j))) by {
        assert forall|k: int| 0 <= k < text.skip(j).len() implies space(
            #[trigger] text.skip(j)[k],
        ) by {
            assert(text.skip(j)[k] == body.skip(out.len() as int)[k]);
        }
    }
    assert(trimmed(text) == text.subrange(i, j));
    if blank(text) {
        assert(body.len() == 0);
    }
    if out.len() == 0 && body.len() > 0 {
        assert(body.skip(0)[0] == body[0]);
    }
}

proof fn lemma_trim_start_blank(text: Seq<char>)
    ensures
        blank(text.take(text.len() - trim_start(text).len())),
    decreases text.len(),
{
    lemma_trim_start(text);
    if text.len() > 0 && space(text[0]) {
        let rest = text.drop_first();
        lemma_trim_start(rest);
        lemma_trim_start_blank(rest);
        let n = text.len() - trim_start(text).len();
        assert forall|k: int| 0 <= k < n implies space(#[trigger] text.take(n)[k]) by {
            if k > 0 {
                assert(rest.take(n - 1)[k - 1] == text[k]);
            }
        }
    }
}

proof fn lemma_trim_end(text: Seq<char>)
    ensures
        trim_end(text).len() <= text.len(),
        trim_end(text) == text.take(trim_end(text).len() as int),
        trim_end(text).len() > 0 ==> !space(trim_end(text).last()),
        blank(text.skip(trim_end(text).len() as int)),
    decreases text.len(),
{
    if text.len() > 0 && space(text.last()) {
        let front = text.drop_last();
        lemma_trim_end(front);
        let n = trim_end(text).len() as int;
        assert(front.take(n) =~= text.take(n));
        assert forall|k: int| 0 <= k < text.skip(n).len() implies space(
            #[trigger] text.skip(n)[k],
        ) by {
            if n + k < front.len() {
                assert(front.skip(n)[k] == text[n + k]);
            }
        }
    } else {
        assert(text.take(text.len() as int) =~= text);
    }
}

/// Texts are joined in order, with the separator between each two and nowhere else.
pub proof fn law_texts_are_joined_in_order(
    parts: Seq<Seq<char>>,
    more: Seq<Seq<char>>,
    separator: Seq<char>,
    one: Seq<char>,
)
    ensures
        join(Seq::<Seq<char>>::empty(), separator) == Seq::<char>::empty(),
        join(seq![one], separator) == one,
        parts.len() > 0 && more.len() > 0 ==> join(parts + more, separator) == join(
            parts,
            separator,
        ) + separator + join(more, separator),
{
    assert(seq![one].drop_first() =~= Seq::<Seq<char>>::empty());
    assert(join(seq![one], separator) =~= one);
    if parts.len() > 0 && more.len() > 0 {
        lemma_joined_rest(parts.drop_first(), more, separator);
        assert((parts + more).drop_first() =~= parts.drop_first() + more);
        assert(join(parts + more, separator) =~= join(parts, separator) + separator + join(
            more,
            separator,
        ));
    }
}

proof fn lemma_joined_rest(parts: Seq<Seq<char>>, more: Seq<Seq<char>>, separator: Seq<char>)
    ensures
        joined_rest(parts + more, separator) == joined_rest(parts, separator) + joined_rest(
            more,
            separator,
        ),
    decreases parts.len(),
{
    if parts.len() == 0 {
        assert(parts + more =~= more);
        assert(joined_rest(parts, separator) + joined_rest(more, separator) =~= joined_rest(
            more,
            separator,
        ));
    } else {
        assert((parts + more).drop_first() =~= parts.drop_first() + more);
        lemma_joined_rest(parts.drop_first(), more, separator);
        assert(joined_rest(parts + more, separator) =~= joined_rest(parts, separator) + joined_rest(
            more,
            separator,
        ));
    }
}

/// What stands behind a beginning or before an end is the rest of the text.
pub proof fn law_what_is_taken_off_was_there(text: Seq<char>, part: Seq<char>)
    ensures
        after(part + text, part) == Some(text),
        before(text + part, part) == Some(text),
        after(text, part) matches Some(rest) ==> text == part + rest,
        before(text, part) matches Some(rest) ==> text == rest + part,
        begins(text, part) <==> after(text, part) is Some,
        ends(text, part) <==> before(text, part) is Some,
{
    assert((part + text).take(part.len() as int) =~= part);
    assert((part + text).skip(part.len() as int) =~= text);
    assert((text + part).skip(text.len() as int) =~= part);
    assert((text + part).take(text.len() as int) =~= text);
    if begins(text, part) {
        assert(text =~= part + text.skip(part.len() as int));
    }
    if ends(text, part) {
        assert(text =~= text.take(text.len() - part.len()) + part);
    }
}

/// A text is halved at the first separator.
pub proof fn law_texts_are_halved_at_the_first(
    left: Seq<char>,
    right: Seq<char>,
    separator: char,
)
    requires
        !left.contains(separator),
    ensures
        halves(left + seq![separator] + right, separator) == Some((left, right)),
        halves(left, separator) is None,
{
    let text = left + seq![separator] + right;
    lemma_find(text, separator);
    lemma_find(left, separator);
    let n = crate::text::find(text, separator) as int;
    assert(text[left.len() as int] == separator);
    if n < left.len() {
        assert(left[n] == separator);
    }
    assert(n == left.len());
    assert(text.take(n) =~= left);
    assert(text.skip(n + 1) =~= right);
}

/// Lines end with a line feed, or with a return before it, which belongs to no line; what stands
/// behind the last end is a line too, unless it is nothing.
pub proof fn law_lines_end_where_they_end(line: Seq<char>, rest: Seq<char>)
    requires
        !line.contains('\n'),
    ensures
        line.len() == 0 || line.last() != '\r' ==> lines(line + seq!['\n'] + rest) == seq![line]
            + lines(rest),
        lines(line + seq!['\r', '\n'] + rest) == seq![line] + lines(rest),
        line.len() > 0 ==> lines(line) == seq![line],
        lines(Seq::<char>::empty()).len() == 0,
{
    let plain = line + seq!['\n'] + rest;
    lemma_find(plain, '\n');
    let n = find(plain, '\n') as int;
    assert(plain[line.len() as int] == '\n');
    if n < line.len() {
        assert(plain[n] == line[n]);
        assert(line.contains(line[n]));
    }
    assert(n == line.len());
    assert(plain.take(n) == line);
    assert(plain.skip(n + 1) == rest);
    let both = line + seq!['\r', '\n'] + rest;
    lemma_find(both, '\n');
    let m = find(both, '\n') as int;
    assert(both[line.len() as int + 1] == '\n');
    if m <= line.len() {
        if m < line.len() {
            assert(both[m] == line[m]);
            assert(line.contains(line[m]));
        } else {
            assert(both[m] == '\r');
        }
    }
    assert(m == line.len() + 1);
    assert(both.take(m) == line.push('\r'));
    assert(line.push('\r').drop_last() == line);
    assert(both.skip(m + 1) == rest);
    lemma_find(line, '\n');
}

/// Numbers are equal where they are written alike, and the two zeros are equal; what has parts
/// is equal part by part, and in everything else nothing but the same is equal.
pub proof fn law_values_are_equal_part_by_part(
    a: JsonView,
    b: JsonView,
    x: Seq<char>,
    y: Seq<char>,
)
    ensures
        equal_values(JsonView::Number(x), JsonView::Number(y)) <==> x == y || (x == "0.0"@ || x
            == "-0.0"@) && (y == "0.0"@ || y == "-0.0"@),
        a is List && b is List ==> (equal_values(a, b) <==> a->List_0.len() == b->List_0.len()
            && forall|i: int|
            0 <= i < a->List_0.len() ==> equal_values(#[trigger] a->List_0[i], b->List_0[i])),
        a is Object && b is Object ==> (equal_values(a, b) <==> a->Object_0.len()
            == b->Object_0.len() && forall|i: int|
            0 <= i < a->Object_0.len() ==> (#[trigger] a->Object_0[i]).0 == b->Object_0[i].0
                && equal_values(a->Object_0[i].1, b->Object_0[i].1)),
        !(a is Number && b is Number) && !(a is List && b is List) && !(a is Object
            && b is Object) ==> (equal_values(a, b) <==> a == b),
{
}

} // verus!
