//! Text primitives. Every function speaks of a text as its sequence of characters.
use vstd::prelude::*;
use vstd::string::*;

verus! {

/// `String::push`: the character is added behind the characters already held.
pub assume_specification[ String::push ](text: &mut String, c: char)
    ensures
        final(text)@ == old(text)@.push(c),
;

/// A control character (general category Cc).
pub open spec fn control(c: char) -> bool {
    let code = c as u32;
    code <= 0x1f || 0x7f <= code <= 0x9f
}

/// A character with the Unicode property White_Space.
pub open spec fn space(c: char) -> bool {
    let code = c as u32;
    ||| 0x9 <= code <= 0xd
    ||| code == 0x20
    ||| code == 0x85
    ||| code == 0xa0
    ||| code == 0x1680
    ||| 0x2000 <= code <= 0x200a
    ||| code == 0x2028
    ||| code == 0x2029
    ||| code == 0x202f
    ||| code == 0x205f
    ||| code == 0x3000
}

pub open spec fn digit(c: char) -> bool {
    '0' as u32 <= c as u32 <= '9' as u32
}

pub open spec fn hex_letter(c: char) -> bool {
    ||| 'a' as u32 <= c as u32 <= 'f' as u32
    ||| 'A' as u32 <= c as u32 <= 'F' as u32
}

pub open spec fn hex(c: char) -> bool {
    digit(c) || hex_letter(c)
}

pub open spec fn alphanumeric(c: char) -> bool {
    ||| digit(c)
    ||| 'a' as u32 <= c as u32 <= 'z' as u32
    ||| 'A' as u32 <= c as u32 <= 'Z' as u32
}

pub fn is_control(c: char) -> (r: bool)
    ensures
        r == control(c),
{
    let code: u32 = c as u32;
    code <= 0x1f || (0x7f <= code && code <= 0x9f)
}

pub fn is_space(c: char) -> (r: bool)
    ensures
        r == space(c),
{
    let code: u32 = c as u32;
    (0x9 <= code && code <= 0xd) || code == 0x20 || code == 0x85 || code == 0xa0 || code == 0x1680
        || (0x2000 <= code && code <= 0x200a) || code == 0x2028 || code == 0x2029 || code == 0x202f
        || code == 0x205f || code == 0x3000
}

pub fn is_digit(c: char) -> (r: bool)
    ensures
        r == digit(c),
{
    let code: u32 = c as u32;
    0x30 <= code && code <= 0x39
}

pub fn is_hex(c: char) -> (r: bool)
    ensures
        r == hex(c),
{
    let code: u32 = c as u32;
    is_digit(c) || (0x61 <= code && code <= 0x66) || (0x41 <= code && code <= 0x46)
}

pub fn is_alphanumeric(c: char) -> (r: bool)
    ensures
        r == alphanumeric(c),
{
    let code: u32 = c as u32;
    is_digit(c) || (0x61 <= code && code <= 0x7a) || (0x41 <= code && code <= 0x5a)
}

/// The characters of a text.
pub fn chars_of(text: &str) -> (r: Vec<char>)
    ensures
        r@ == text@,
{
    let mut out: Vec<char> = Vec::new();
    for c in it: text.chars()
        invariant
            out@ == text@.take(it.index() as int),
            it.seq() == text@,
    {
        proof {
            assert(text@.take(it.index() + 1) =~= text@.take(it.index() as int).push(c));
        }
        out.push(c);
    }
    proof {
        assert(text@.take(text@.len() as int) =~= text@);
    }
    out
}

/// Whether two texts hold the same characters.
pub fn same(a: &str, b: &str) -> (r: bool)
    ensures
        r == (a@ == b@),
{
    a.to_owned() == b.to_owned()
}

/// The first `max` characters, or all of them where there are fewer.
pub open spec fn first(text: Seq<char>, max: nat) -> Seq<char> {
    if text.len() <= max {
        text
    } else {
        text.take(max as int)
    }
}

/// What a filter keeps of one more character.
pub proof fn lemma_filter_step<A>(s: Seq<A>, keep: spec_fn(A) -> bool, i: int)
    requires
        0 <= i < s.len(),
    ensures
        s.take(i + 1).filter(keep) == if keep(s[i]) {
            s.take(i).filter(keep).push(s[i])
        } else {
            s.take(i).filter(keep)
        },
{
    reveal(Seq::filter);
    assert(s.take(i + 1).drop_last() =~= s.take(i));
}

/// The first `max` characters of a text.
pub fn prefix(text: &str, max: usize) -> (r: String)
    ensures
        r@ == first(text@, max as nat),
{
    let chars = chars_of(text);
    if chars.len() <= max {
        return text.to_owned();
    }
    let mut out = String::new();
    for i in 0..max
        invariant
            max < chars.len(),
            out@ == chars@.take(i as int),
    {
        proof {
            assert(chars@.take(i + 1) =~= chars@.take(i as int).push(chars@[i as int]));
        }
        out.push(chars[i]);
    }
    out
}

/// A text is blank when it holds nothing but white space.
pub open spec fn blank(text: Seq<char>) -> bool {
    forall|i: int| 0 <= i < text.len() ==> space(#[trigger] text[i])
}

pub fn is_blank(text: &str) -> (r: bool)
    ensures
        r == blank(text@),
{
    let chars = chars_of(text);
    for i in 0..chars.len()
        invariant
            chars@ == text@,
            forall|j: int| 0 <= j < i ==> space(#[trigger] text@[j]),
    {
        if !is_space(chars[i]) {
            assert(!space(text@[i as int]));
            return false;
        }
    }
    true
}

/// The text without its leading white space.
pub open spec fn trim_start(text: Seq<char>) -> Seq<char>
    decreases text.len(),
{
    if text.len() > 0 && space(text[0]) {
        trim_start(text.drop_first())
    } else {
        text
    }
}

/// The text without its trailing white space.
pub open spec fn trim_end(text: Seq<char>) -> Seq<char>
    decreases text.len(),
{
    if text.len() > 0 && space(text.last()) {
        trim_end(text.drop_last())
    } else {
        text
    }
}

/// The text without the white space at both its ends.
pub open spec fn trimmed(text: Seq<char>) -> Seq<char> {
    trim_end(trim_start(text))
}

pub proof fn lemma_trim_start(text: Seq<char>)
    ensures
        trim_start(text).len() <= text.len(),
        trim_start(text) == text.skip(text.len() - trim_start(text).len()),
        trim_start(text).len() > 0 ==> !space(trim_start(text)[0]),
        blank(text) <==> trim_start(text).len() == 0,
    decreases text.len(),
{
    if text.len() > 0 && space(text[0]) {
        let rest = text.drop_first();
        lemma_trim_start(rest);
        assert(rest.skip(rest.len() - trim_start(rest).len()) =~= text.skip(
            text.len() - trim_start(rest).len(),
        ));
        if blank(text) {
            assert forall|i: int| 0 <= i < rest.len() implies space(#[trigger] rest[i]) by {
                assert(space(text[i + 1]));
            }
        }
        if blank(rest) {
            assert forall|i: int| 0 <= i < text.len() implies space(#[trigger] text[i]) by {
                if i > 0 {
                    assert(space(rest[i - 1]));
                }
            }
        }
    } else {
        assert(text.skip(0) =~= text);
        if text.len() > 0 {
            assert(!space(text[0]));
        }
    }
}

/// Where the first character that is no white space stands, at or behind `from`.
fn skip_spaces(chars: &Vec<char>, from: usize) -> (r: usize)
    requires
        from <= chars.len(),
    ensures
        from <= r <= chars.len(),
        trim_start(chars@.skip(from as int)) == chars@.skip(r as int),
        r < chars.len() ==> !space(chars@[r as int]),
{
    let mut at = from;
    while at < chars.len() && is_space(chars[at])
        invariant
            from <= at <= chars.len(),
            trim_start(chars@.skip(from as int)) == trim_start(chars@.skip(at as int)),
        decreases chars.len() - at,
    {
        proof {
            assert(chars@.skip(at as int).drop_first() =~= chars@.skip(at + 1));
        }
        at = at + 1;
    }
    at
}

pub fn trim(text: &str) -> (r: String)
    ensures
        r@ == trimmed(text@),
{
    let chars = chars_of(text);
    assert(chars@.skip(0) =~= chars@);
    let low = skip_spaces(&chars, 0);
    let ghost body = chars@.skip(low as int);
    let mut high = chars.len();
    assert(chars@.subrange(low as int, high as int) =~= body);
    while low < high && is_space(chars[high - 1])
        invariant
            low <= high <= chars.len(),
            body == chars@.skip(low as int),
            trim_end(body) == trim_end(chars@.subrange(low as int, high as int)),
        decreases high,
    {
        proof {
            assert(chars@.subrange(low as int, high as int).drop_last() =~= chars@.subrange(
                low as int,
                high - 1,
            ));
        }
        high = high - 1;
    }
    let mut out = String::new();
    for i in low..high
        invariant
            low <= high <= chars.len(),
            out@ == chars@.subrange(low as int, i as int),
    {
        proof {
            assert(chars@.subrange(low as int, i + 1) =~= chars@.subrange(low as int, i as int).push(
                chars@[i as int],
            ));
        }
        out.push(chars[i]);
    }
    out
}

/// How many characters stand before the first white space.
pub open spec fn word_len(text: Seq<char>) -> nat
    decreases text.len(),
{
    if text.len() == 0 || space(text[0]) {
        0
    } else {
        1 + word_len(text.drop_first())
    }
}

pub proof fn lemma_word_len(text: Seq<char>)
    ensures
        word_len(text) <= text.len(),
        text.len() > 0 && !space(text[0]) ==> word_len(text) > 0,
    decreases text.len(),
{
    if text.len() > 0 && !space(text[0]) {
        lemma_word_len(text.drop_first());
    }
}

/// The words of a text: its longest runs without white space, in order.
pub open spec fn words(text: Seq<char>) -> Seq<Seq<char>>
    decreases text.len(),
{
    let body = trim_start(text);
    let n = word_len(body);
    if body.len() == 0 {
        Seq::empty()
    } else {
        proof {
            lemma_trim_start(text);
            lemma_word_len(body);
        }
        seq![body.take(n as int)] + words(body.skip(n as int))
    }
}

/// The texts behind one another, each but the first after a separator.
pub open spec fn join(parts: Seq<Seq<char>>, separator: Seq<char>) -> Seq<char> {
    if parts.len() == 0 {
        Seq::empty()
    } else {
        parts[0] + joined_rest(parts.drop_first(), separator)
    }
}

pub open spec fn joined_rest(parts: Seq<Seq<char>>, separator: Seq<char>) -> Seq<char>
    decreases parts.len(),
{
    if parts.len() == 0 {
        Seq::empty()
    } else {
        separator + parts[0] + joined_rest(parts.drop_first(), separator)
    }
}

pub fn join_texts(parts: &Vec<String>, separator: &str) -> (r: String)
    ensures
        r@ == join(parts.deep_view(), separator@),
{
    let ghost views = parts.deep_view();
    if parts.len() == 0 {
        return String::new();
    }
    let mut out = parts[0].clone();
    assert(views.drop_first() =~= views.skip(1));
    for i in 1..parts.len()
        invariant
            views == parts.deep_view(),
            1 <= parts.len(),
            join(views, separator@) == out@ + joined_rest(views.skip(i as int), separator@),
    {
        proof {
            let rest = views.skip(i as int);
            assert(rest[0] == parts@[i as int]@);
            assert(rest.drop_first() =~= views.skip(i + 1));
            assert((out@ + separator@ + parts@[i as int]@) + joined_rest(
                rest.drop_first(),
                separator@,
            ) =~= out@ + joined_rest(rest, separator@));
        }
        out.append(separator);
        out.append(parts[i].as_str());
    }
    proof {
        assert(views.skip(views.len() as int).len() == 0);
        assert(out@ + Seq::<char>::empty() =~= out@);
    }
    out
}

pub fn words_of(text: &str) -> (r: Vec<String>)
    ensures
        r.deep_view() == words(text@),
{
    let chars = chars_of(text);
    let mut out: Vec<String> = Vec::new();
    let mut at: usize = 0;
    assert(chars@.skip(0) =~= chars@);
    assert(out.deep_view() + words(chars@) =~= words(chars@));
    loop
        invariant
            at <= chars.len(),
            words(chars@) == out.deep_view() + words(chars@.skip(at as int)),
        ensures
            words(chars@) == out.deep_view(),
        decreases chars.len() - at,
    {
        let start = skip_spaces(&chars, at);
        let ghost body = chars@.skip(start as int);
        if start == chars.len() {
            assert(words(chars@.skip(at as int)) =~= Seq::<Seq<char>>::empty());
            assert(out.deep_view() + Seq::<Seq<char>>::empty() =~= out.deep_view());
            break;
        }
        let mut word = String::new();
        let mut end = start;
        assert(word@ + body.take(word_len(body) as int) =~= body.take(word_len(body) as int));
        while end < chars.len() && !is_space(chars[end])
            invariant
                start <= end <= chars.len(),
                body == chars@.skip(start as int),
                word@ == chars@.subrange(start as int, end as int),
                word_len(body) == (end - start) + word_len(chars@.skip(end as int)),
            decreases chars.len() - end,
        {
            proof {
                assert(chars@.skip(end as int).drop_first() =~= chars@.skip(end + 1));
                assert(chars@.subrange(start as int, end + 1) =~= chars@.subrange(
                    start as int,
                    end as int,
                ).push(chars@[end as int]));
            }
            word.push(chars[end]);
            end = end + 1;
        }
        let ghost before = out.deep_view();
        out.push(word);
        proof {
            lemma_word_len(body);
            let n = word_len(body) as int;
            assert(n == end - start);
            assert(body.take(n) =~= chars@.subrange(start as int, end as int));
            assert(body.skip(n) =~= chars@.skip(end as int));
            assert(out.deep_view() =~= before.push(body.take(n)));
            assert(before + (seq![body.take(n)] + words(body.skip(n))) =~= out.deep_view() + words(
                chars@.skip(end as int),
            ));
        }
        at = end;
    }
    out
}

/// The words of a text with one space between them.
pub open spec fn normalized(text: Seq<char>) -> Seq<char> {
    join(words(text), seq![' '])
}

/// Whether a text holds no white space but spaces.
pub open spec fn single_spaced(text: Seq<char>) -> bool {
    forall|i: int| 0 <= i < text.len() && space(#[trigger] text[i]) ==> text[i] == ' '
}

proof fn lemma_word_is_solid(text: Seq<char>)
    ensures
        word_len(text) <= text.len(),
        forall|i: int| 0 <= i < word_len(text) ==> !space(#[trigger] text[i]),
    decreases text.len(),
{
    if text.len() > 0 && !space(text[0]) {
        let rest = text.drop_first();
        lemma_word_is_solid(rest);
        assert forall|i: int| 0 <= i < word_len(text) implies !space(#[trigger] text[i]) by {
            if i > 0 {
                assert(text[i] == rest[i - 1]);
            }
        }
    }
}

proof fn lemma_words_are_solid(text: Seq<char>)
    ensures
        forall|k: int, i: int|
            0 <= k < words(text).len() && 0 <= i < words(text)[k].len() ==> !space(
                #[trigger] words(text)[k][i],
            ),
    decreases text.len(),
{
    let body = trim_start(text);
    lemma_trim_start(text);
    lemma_word_len(body);
    lemma_word_is_solid(body);
    let n = word_len(body) as int;
    if body.len() > 0 {
        let rest = body.skip(n);
        lemma_words_are_solid(rest);
        assert forall|k: int, i: int|
            0 <= k < words(text).len() && 0 <= i < words(text)[k].len() implies !space(
            #[trigger] words(text)[k][i],
        ) by {
            if k == 0 {
                assert(words(text)[0] == body.take(n));
                assert(words(text)[0][i] == body[i]);
            } else {
                assert(words(text)[k] == words(rest)[k - 1]);
            }
        }
    }
}

proof fn lemma_joined_rest_spaced(parts: Seq<Seq<char>>)
    requires
        forall|k: int, i: int|
            0 <= k < parts.len() && 0 <= i < parts[k].len() ==> !space(#[trigger] parts[k][i]),
    ensures
        single_spaced(joined_rest(parts, seq![' '])),
    decreases parts.len(),
{
    if parts.len() > 0 {
        let rest = parts.drop_first();
        assert forall|k: int, i: int| 0 <= k < rest.len() && 0 <= i < rest[k].len() implies !space(
            #[trigger] rest[k][i],
        ) by {
            assert(rest[k] == parts[k + 1]);
            assert(!space(parts[k + 1][i]));
        }
        lemma_joined_rest_spaced(rest);
        let whole = joined_rest(parts, seq![' ']);
        let tail = joined_rest(rest, seq![' ']);
        assert forall|i: int| 0 <= i < whole.len() && space(#[trigger] whole[i]) implies whole[i]
            == ' ' by {
            let n = parts[0].len() as int;
            if 0 < i <= n {
                assert(whole[i] == parts[0][i - 1]);
            } else if i > n {
                assert(whole[i] == tail[i - n - 1]);
            }
        }
    }
}

/// Between words there is nothing but spaces.
pub proof fn lemma_normalized_is_spaced(text: Seq<char>)
    ensures
        single_spaced(normalized(text)),
{
    lemma_words_are_solid(text);
    let parts = words(text);
    if parts.len() > 0 {
        let rest = parts.drop_first();
        assert forall|k: int, i: int| 0 <= k < rest.len() && 0 <= i < rest[k].len() implies !space(
            #[trigger] rest[k][i],
        ) by {
            assert(rest[k] == parts[k + 1]);
            assert(!space(parts[k + 1][i]));
        }
        lemma_joined_rest_spaced(rest);
        let whole = normalized(text);
        let tail = joined_rest(rest, seq![' ']);
        let n = parts[0].len() as int;
        assert forall|i: int| 0 <= i < whole.len() && space(#[trigger] whole[i]) implies whole[i]
            == ' ' by {
            if i < n {
                assert(whole[i] == parts[0][i]);
            } else {
                assert(whole[i] == tail[i - n]);
            }
        }
    }
}

pub fn normalize(text: &str) -> (r: String)
    ensures
        r@ == normalized(text@),
{
    let parts = words_of(text);
    proof {
        reveal_strlit(" ");
        assert(" "@ =~= seq![' ']);
    }
    join_texts(&parts, " ")
}

/// Whether `text` begins with `start`.
pub open spec fn begins(text: Seq<char>, start: Seq<char>) -> bool {
    start.len() <= text.len() && text.take(start.len() as int) == start
}

/// Whether `text` ends with `end`.
pub open spec fn ends(text: Seq<char>, end: Seq<char>) -> bool {
    end.len() <= text.len() && text.skip(text.len() - end.len()) == end
}

/// Whether the characters of `part` stand in `text` from `at` on.
fn stands_at(text: &Vec<char>, at: usize, part: &Vec<char>) -> (r: bool)
    requires
        at <= text.len(),
    ensures
        r == begins(text@.skip(at as int), part@),
{
    if part.len() > text.len() - at {
        return false;
    }
    let ghost rest = text@.skip(at as int);
    for i in 0..part.len()
        invariant
            rest == text@.skip(at as int),
            at + part.len() <= text.len(),
            forall|j: int| 0 <= j < i ==> rest[j] == #[trigger] part@[j],
    {
        if text[at + i] != part[i] {
            assert(rest.take(part@.len() as int)[i as int] != part@[i as int]);
            return false;
        }
    }
    assert(rest.take(part@.len() as int) =~= part@);
    true
}

pub fn starts_with(text: &str, start: &str) -> (r: bool)
    ensures
        r == begins(text@, start@),
{
    let chars = chars_of(text);
    assert(chars@.skip(0) =~= chars@);
    stands_at(&chars, 0, &chars_of(start))
}

pub fn ends_with(text: &str, end: &str) -> (r: bool)
    ensures
        r == ends(text@, end@),
{
    let chars = chars_of(text);
    let part = chars_of(end);
    if part.len() > chars.len() {
        return false;
    }
    let at: usize = chars.len() - part.len();
    proof {
        assert(chars@.skip(at as int).take(part@.len() as int) =~= chars@.skip(at as int));
    }
    stands_at(&chars, at, &part)
}

/// The characters from `low` up to `high`.
pub fn slice(chars: &Vec<char>, low: usize, high: usize) -> (r: String)
    requires
        low <= high <= chars.len(),
    ensures
        r@ == chars@.subrange(low as int, high as int),
{
    let mut out = String::new();
    for i in low..high
        invariant
            low <= high <= chars.len(),
            out@ == chars@.subrange(low as int, i as int),
    {
        proof {
            assert(chars@.subrange(low as int, i + 1) =~= chars@.subrange(low as int, i as int).push(
                chars@[i as int],
            ));
        }
        out.push(chars[i]);
    }
    out
}

/// What follows `start` in a text that begins with it.
pub open spec fn after(text: Seq<char>, start: Seq<char>) -> Option<Seq<char>> {
    if begins(text, start) {
        Some(text.skip(start.len() as int))
    } else {
        None
    }
}

/// What precedes `end` in a text that ends with it.
pub open spec fn before(text: Seq<char>, end: Seq<char>) -> Option<Seq<char>> {
    if ends(text, end) {
        Some(text.take(text.len() - end.len()))
    } else {
        None
    }
}

pub fn strip_prefix(text: &str, start: &str) -> (r: Option<String>)
    ensures
        r.deep_view() == after(text@, start@),
{
    if !starts_with(text, start) {
        return None;
    }
    let chars = chars_of(text);
    let n = chars_of(start).len();
    assert(chars@.subrange(n as int, chars@.len() as int) =~= chars@.skip(n as int));
    Some(slice(&chars, n, chars.len()))
}

pub fn strip_suffix(text: &str, end: &str) -> (r: Option<String>)
    ensures
        r.deep_view() == before(text@, end@),
{
    if !ends_with(text, end) {
        return None;
    }
    let chars = chars_of(text);
    let n = chars.len() - chars_of(end).len();
    assert(chars@.subrange(0, n as int) =~= chars@.take(n as int));
    Some(slice(&chars, 0, n))
}

/// How many characters stand before the first `c`; all of them where there is none.
pub open spec fn find(text: Seq<char>, c: char) -> nat
    decreases text.len(),
{
    if text.len() == 0 || text[0] == c {
        0
    } else {
        1 + find(text.drop_first(), c)
    }
}

pub proof fn lemma_find(text: Seq<char>, c: char)
    ensures
        find(text, c) <= text.len(),
        find(text, c) < text.len() ==> text[find(text, c) as int] == c,
        forall|i: int| 0 <= i < find(text, c) ==> #[trigger] text[i] != c,
        text.contains(c) <==> find(text, c) < text.len(),
    decreases text.len(),
{
    if text.len() > 0 && text[0] != c {
        let rest = text.drop_first();
        lemma_find(rest, c);
        assert forall|i: int| 0 <= i < find(text, c) implies #[trigger] text[i] != c by {
            if i > 0 {
                assert(text[i] == rest[i - 1]);
            }
        }
        if text.contains(c) {
            let i = choose|i: int| 0 <= i < text.len() && text[i] == c;
            assert(rest[i - 1] == c);
        }
    }
}

/// The place of the first `c` at or behind `from`, or the end.
fn find_from(chars: &Vec<char>, c: char, from: usize) -> (r: usize)
    requires
        from <= chars.len(),
    ensures
        from <= r <= chars.len(),
        r - from == find(chars@.skip(from as int), c),
{
    let mut at = from;
    while at < chars.len() && chars[at] != c
        invariant
            from <= at <= chars.len(),
            find(chars@.skip(from as int), c) == (at - from) + find(chars@.skip(at as int), c),
        decreases chars.len() - at,
    {
        proof {
            assert(chars@.skip(at as int).drop_first() =~= chars@.skip(at + 1));
        }
        at = at + 1;
    }
    at
}

pub fn contains(text: &str, c: char) -> (r: bool)
    ensures
        r == text@.contains(c),
{
    let chars = chars_of(text);
    proof {
        lemma_find(text@, c);
        assert(chars@.skip(0) =~= text@);
    }
    find_from(&chars, c, 0) < chars.len()
}

/// What stands between the separators, empty pieces included.
pub open spec fn pieces(text: Seq<char>, separator: char) -> Seq<Seq<char>>
    decreases text.len(),
{
    let n = find(text, separator) as int;
    if n < text.len() {
        seq![text.take(n)] + pieces(text.skip(n + 1), separator)
    } else {
        seq![text]
    }
}

pub fn split(text: &str, separator: char) -> (r: Vec<String>)
    ensures
        r.deep_view() == pieces(text@, separator),
        r.len() > 0,
{
    let chars = chars_of(text);
    let mut out: Vec<String> = Vec::new();
    let mut at: usize = 0;
    assert(chars@.skip(0) =~= chars@);
    assert(out.deep_view() + pieces(chars@, separator) =~= pieces(chars@, separator));
    loop
        invariant_except_break
            at <= chars.len(),
            pieces(chars@, separator) == out.deep_view() + pieces(chars@.skip(at as int), separator),
        ensures
            pieces(chars@, separator) == out.deep_view(),
            out.len() > 0,
        decreases chars.len() - at,
    {
        let end = find_from(&chars, separator, at);
        let ghost held = out.deep_view();
        let ghost rest = chars@.skip(at as int);
        out.push(slice(&chars, at, end));
        proof {
            assert(rest.take(end - at) =~= chars@.subrange(at as int, end as int));
            assert(out.deep_view() =~= held.push(rest.take(end - at)));
        }
        if end == chars.len() {
            proof {
                assert(rest.take(end - at) =~= rest);
                assert(held + seq![rest] =~= out.deep_view());
            }
            break;
        }
        proof {
            assert(rest.skip(end - at + 1) =~= chars@.skip(end + 1));
            assert(held + (seq![rest.take(end - at)] + pieces(chars@.skip(end + 1), separator))
                =~= out.deep_view() + pieces(chars@.skip(end + 1), separator));
        }
        at = end + 1;
    }
    out
}

/// The parts before and behind the first separator, where there is one.
pub open spec fn halves(text: Seq<char>, separator: char) -> Option<(Seq<char>, Seq<char>)> {
    let n = find(text, separator) as int;
    if n < text.len() {
        Some((text.take(n), text.skip(n + 1)))
    } else {
        None
    }
}

pub fn split_once(text: &str, separator: char) -> (r: Option<(String, String)>)
    ensures
        r.deep_view() == halves(text@, separator),
{
    let chars = chars_of(text);
    assert(chars@.skip(0) =~= chars@);
    let n = find_from(&chars, separator, 0);
    if n == chars.len() {
        return None;
    }
    proof {
        assert(chars@.subrange(0, n as int) =~= chars@.take(n as int));
        assert(chars@.subrange(n + 1, chars@.len() as int) =~= chars@.skip(n + 1));
    }
    Some((slice(&chars, 0, n), slice(&chars, n + 1, chars.len())))
}

/// A line without the carriage return that belongs to its line ending.
pub open spec fn without_return(line: Seq<char>) -> Seq<char> {
    if line.len() > 0 && line.last() == '\r' {
        line.drop_last()
    } else {
        line
    }
}

/// The lines of a text. A line ends with a line feed, or with a carriage return and a
/// line feed; the last line may lack its ending.
pub open spec fn lines(text: Seq<char>) -> Seq<Seq<char>>
    decreases text.len(),
{
    let n = find(text, '\n') as int;
    if text.len() == 0 {
        Seq::empty()
    } else if n < text.len() {
        seq![without_return(text.take(n))] + lines(text.skip(n + 1))
    } else {
        seq![text]
    }
}

pub fn lines_of(text: &str) -> (r: Vec<String>)
    ensures
        r.deep_view() == lines(text@),
{
    let chars = chars_of(text);
    let mut out: Vec<String> = Vec::new();
    let mut at: usize = 0;
    assert(chars@.skip(0) =~= chars@);
    assert(out.deep_view() + lines(chars@) =~= lines(chars@));
    while at < chars.len()
        invariant
            at <= chars.len(),
            lines(chars@) == out.deep_view() + lines(chars@.skip(at as int)),
        decreases chars.len() - at,
    {
        let end = find_from(&chars, '\n', at);
        let ghost held = out.deep_view();
        let ghost rest = chars@.skip(at as int);
        if end == chars.len() {
            out.push(slice(&chars, at, end));
            proof {
                assert(chars@.subrange(at as int, end as int) =~= rest);
                assert(out.deep_view() =~= held + seq![rest]);
                assert(chars@.skip(end as int).len() == 0);
                assert(out.deep_view() + Seq::<Seq<char>>::empty() =~= out.deep_view());
            }
            at = end;
        } else {
            let stop: usize = if at < end && chars[end - 1] == '\r' {
                end - 1
            } else {
                end
            };
            out.push(slice(&chars, at, stop));
            proof {
                assert(rest.take(end - at) =~= chars@.subrange(at as int, end as int));
                assert(without_return(rest.take(end - at)) =~= chars@.subrange(
                    at as int,
                    stop as int,
                ));
                assert(out.deep_view() =~= held.push(without_return(rest.take(end - at))));
                assert(rest.skip(end - at + 1) =~= chars@.skip(end + 1));
                assert(held + (seq![without_return(rest.take(end - at))] + lines(
                    chars@.skip(end + 1),
                )) =~= out.deep_view() + lines(chars@.skip(end + 1)));
            }
            at = end + 1;
        }
    }
    proof {
        assert(chars@.skip(at as int).len() == 0);
        assert(out.deep_view() + Seq::<Seq<char>>::empty() =~= out.deep_view());
    }
    out
}

/// The text with each occurrence of `part`, taken from the left, replaced.
pub open spec fn replaced(text: Seq<char>, part: Seq<char>, with: Seq<char>) -> Seq<char>
    decreases text.len(),
{
    if part.len() == 0 || text.len() == 0 {
        text
    } else if begins(text, part) {
        with + replaced(text.skip(part.len() as int), part, with)
    } else {
        seq![text[0]] + replaced(text.drop_first(), part, with)
    }
}

pub fn replace(text: &str, part: &str, with: &str) -> (r: String)
    requires
        part@.len() > 0,
    ensures
        r@ == replaced(text@, part@, with@),
{
    let chars = chars_of(text);
    let wanted = chars_of(part);
    let mut out = String::new();
    let mut at: usize = 0;
    assert(chars@.skip(0) =~= chars@);
    assert(out@ + replaced(chars@, part@, with@) =~= replaced(chars@, part@, with@));
    while at < chars.len()
        invariant
            at <= chars.len(),
            wanted@ == part@,
            part@.len() > 0,
            replaced(chars@, part@, with@) == out@ + replaced(
                chars@.skip(at as int),
                part@,
                with@,
            ),
        decreases chars.len() - at,
    {
        let ghost rest = chars@.skip(at as int);
        let ghost held = out@;
        if stands_at(&chars, at, &wanted) {
            out.append(with);
            proof {
                assert(rest.skip(part@.len() as int) =~= chars@.skip(at + part@.len()));
                assert(held + (with@ + replaced(chars@.skip(at + part@.len()), part@, with@))
                    =~= out@ + replaced(chars@.skip(at + part@.len()), part@, with@));
            }
            at = at + wanted.len();
        } else {
            out.push(chars[at]);
            proof {
                assert(rest.drop_first() =~= chars@.skip(at + 1));
                assert(held + (seq![rest[0]] + replaced(chars@.skip(at + 1), part@, with@)) =~= out@
                    + replaced(chars@.skip(at + 1), part@, with@));
            }
            at = at + 1;
        }
    }
    proof {
        assert(chars@.skip(at as int).len() == 0);
        assert(out@ + chars@.skip(at as int) =~= out@);
    }
    out
}

/// The text behind its leading occurrences of `c`.
pub open spec fn behind(text: Seq<char>, c: char) -> Seq<char>
    decreases text.len(),
{
    if text.len() > 0 && text[0] == c {
        behind(text.drop_first(), c)
    } else {
        text
    }
}

pub fn skip_leading(text: &str, c: char) -> (r: String)
    ensures
        r@ == behind(text@, c),
{
    let chars = chars_of(text);
    let mut at: usize = 0;
    assert(chars@.skip(0) =~= chars@);
    while at < chars.len() && chars[at] == c
        invariant
            at <= chars.len(),
            behind(chars@, c) == behind(chars@.skip(at as int), c),
        decreases chars.len() - at,
    {
        proof {
            assert(chars@.skip(at as int).drop_first() =~= chars@.skip(at + 1));
        }
        at = at + 1;
    }
    assert(chars@.subrange(at as int, chars@.len() as int) =~= chars@.skip(at as int));
    slice(&chars, at, chars.len())
}

/// Whether a text holds another one somewhere.
pub open spec fn mentions(text: Seq<char>, part: Seq<char>) -> bool {
    exists|i: int| 0 <= i <= text.len() && begins(#[trigger] text.skip(i), part)
}

pub fn includes(text: &str, part: &str) -> (r: bool)
    ensures
        r == mentions(text@, part@),
{
    let chars = chars_of(text);
    let wanted = chars_of(part);
    let mut i: usize = 0;
    while i < chars.len()
        invariant
            chars@ == text@,
            wanted@ == part@,
            i <= chars.len(),
            forall|j: int| 0 <= j < i ==> !begins(#[trigger] text@.skip(j), part@),
        decreases chars.len() - i,
    {
        if stands_at(&chars, i, &wanted) {
            assert(begins(text@.skip(i as int), part@));
            return true;
        }
        i = i + 1;
    }
    proof {
        let end = text@.skip(text@.len() as int);
        if part@.len() == 0 {
            assert(end.take(0) =~= part@);
            assert(begins(end, part@));
        } else {
            assert forall|j: int| 0 <= j <= text@.len() implies !begins(
                #[trigger] text@.skip(j),
                part@,
            ) by {
                if j == text@.len() {
                    assert(end.len() == 0);
                }
            }
        }
    }
    wanted.len() == 0
}

} // verus!
