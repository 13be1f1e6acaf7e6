//! JSON values as the rules read them, and their text.
use vstd::prelude::*;
use vstd::string::*;

use crate::number::{decimal, decimal_text, lower_hex};
use crate::text::same;

verus! {

/// A JSON value. Objects hold their members in the order in which they are written.
pub enum Json {
    Null,
    Bool(bool),
    /// An integer from zero to the largest unsigned 64-bit number.
    Unsigned(u64),
    /// Any other number, as its JSON text.
    Number(String),
    Text(String),
    List(Vec<Json>),
    Object(Vec<Member>),
}

/// A named value of an object.
pub struct Member {
    pub name: String,
    pub value: Json,
}

/// A JSON value as a mathematical one.
pub enum JsonView {
    Null,
    Bool(bool),
    Unsigned(u64),
    Number(Seq<char>),
    Text(Seq<char>),
    List(Seq<JsonView>),
    Object(Seq<(Seq<char>, JsonView)>),
}

impl Json {
    pub open spec fn view(&self) -> JsonView
        decreases self,
    {
        match *self {
            Json::Null => JsonView::Null,
            Json::Bool(b) => JsonView::Bool(b),
            Json::Unsigned(n) => JsonView::Unsigned(n),
            Json::Number(text) => JsonView::Number(text@),
            Json::Text(text) => JsonView::Text(text@),
            Json::List(items) => JsonView::List(
                Seq::new(
                    items@.len(),
                    |i: int|
                        if 0 <= i < items@.len() {
                            items@[i].view()
                        } else {
                            JsonView::Null
                        },
                ),
            ),
            Json::Object(members) => JsonView::Object(
                Seq::new(
                    members@.len(),
                    |i: int|
                        if 0 <= i < members@.len() {
                            (members@[i].name@, members@[i].value.view())
                        } else {
                            (Seq::empty(), JsonView::Null)
                        },
                ),
            ),
        }
    }
}

/// The views of a list of values.
pub open spec fn views(items: Seq<Json>) -> Seq<JsonView> {
    Seq::new(items.len(), |i: int| items[i]@)
}

/// The views of the members of an object.
pub open spec fn member_views(members: Seq<Member>) -> Seq<(Seq<char>, JsonView)> {
    Seq::new(members.len(), |i: int| (members[i].name@, members[i].value@))
}

/// The value of the first member with this name; null where there is none, and null in
/// anything that is no object.
pub open spec fn member(value: JsonView, name: Seq<char>) -> JsonView {
    match value {
        JsonView::Object(members) => first_member(members, name),
        _ => JsonView::Null,
    }
}

pub open spec fn first_member(members: Seq<(Seq<char>, JsonView)>, name: Seq<char>) -> JsonView
    decreases members.len(),
{
    if members.len() == 0 {
        JsonView::Null
    } else if members[0].0 == name {
        members[0].1
    } else {
        first_member(members.drop_first(), name)
    }
}

/// Whether a value is an object that has a member with this name.
pub open spec fn has_member(value: JsonView, name: Seq<char>) -> bool {
    match value {
        JsonView::Object(members) => exists|i: int|
            0 <= i < members.len() && (#[trigger] members[i]).0 == name,
        _ => false,
    }
}

/// The characters of a JSON string.
pub open spec fn text_in(value: JsonView) -> Option<Seq<char>> {
    match value {
        JsonView::Text(text) => Some(text),
        _ => None,
    }
}

pub open spec fn unsigned_in(value: JsonView) -> Option<u64> {
    match value {
        JsonView::Unsigned(n) => Some(n),
        _ => None,
    }
}

pub open spec fn list_in(value: JsonView) -> Option<Seq<JsonView>> {
    match value {
        JsonView::List(items) => Some(items),
        _ => None,
    }
}

/// A character as it stands in a JSON string.
pub open spec fn escaped(c: char) -> Seq<char> {
    match c {
        '"' => seq!['\\', '"'],
        '\\' => seq!['\\', '\\'],
        '\u{8}' => seq!['\\', 'b'],
        '\t' => seq!['\\', 't'],
        '\n' => seq!['\\', 'n'],
        '\u{c}' => seq!['\\', 'f'],
        '\r' => seq!['\\', 'r'],
        _ => if (c as u32) < 0x20 {
            seq!['\\', 'u', '0', '0'] + lower_hex(seq![c as u8])
        } else {
            seq![c]
        },
    }
}

/// Characters as they stand in a JSON string.
pub open spec fn all_escaped(text: Seq<char>) -> Seq<char>
    decreases text.len(),
{
    if text.len() == 0 {
        Seq::empty()
    } else {
        all_escaped(text.drop_last()) + escaped(text.last())
    }
}

/// A text as a JSON string.
pub open spec fn quoted(text: Seq<char>) -> Seq<char> {
    seq!['"'] + all_escaped(text) + seq!['"']
}

/// `serde_json::to_string` on a string: the text as a JSON string. Quotation marks, backslashes
/// and control characters below the space are escaped, by a letter where they have one, and
/// everything else stands for itself. It cannot fail on a string.
#[verifier::external_body]
fn quote(text: &str) -> (r: String)
    ensures
        r@ == quoted(text@),
{
    serde_json::to_string(text).unwrap()
}

/// A value as compact JSON text.
pub open spec fn json_text(value: JsonView) -> Seq<char>
    decreases value,
{
    match value {
        JsonView::Null => "null"@,
        JsonView::Bool(true) => "true"@,
        JsonView::Bool(false) => "false"@,
        JsonView::Unsigned(n) => decimal(n as nat),
        JsonView::Number(text) => text,
        JsonView::Text(text) => quoted(text),
        JsonView::List(items) => seq!['['] + items_text(items) + seq![']'],
        JsonView::Object(members) => seq!['{'] + members_text(members) + seq!['}'],
    }
}

/// The items of a list, with commas between them.
pub open spec fn items_text(items: Seq<JsonView>) -> Seq<char>
    decreases items,
{
    if items.len() == 0 {
        Seq::empty()
    } else if items.len() == 1 {
        json_text(items[0])
    } else {
        json_text(items[0]) + seq![','] + items_text(items.drop_first())
    }
}

/// The members of an object, with commas between them.
pub open spec fn members_text(members: Seq<(Seq<char>, JsonView)>) -> Seq<char>
    decreases members,
{
    if members.len() == 0 {
        Seq::empty()
    } else if members.len() == 1 {
        quoted(members[0].0) + seq![':'] + json_text(members[0].1)
    } else {
        quoted(members[0].0) + seq![':'] + json_text(members[0].1) + seq![','] + members_text(
            members.drop_first(),
        )
    }
}

/// The two notations of a zero that is no unsigned integer.
pub open spec fn is_zero(text: Seq<char>) -> bool {
    text == "0.0"@ || text == "-0.0"@
}

/// Whether two values are equal. Of the numbers that are no unsigned integers, only zero has
/// two notations.
pub open spec fn equal_values(a: JsonView, b: JsonView) -> bool
    decreases a,
{
    match (a, b) {
        (JsonView::Number(x), JsonView::Number(y)) => x == y || is_zero(x) && is_zero(y),
        (JsonView::List(x), JsonView::List(y)) => x.len() == y.len() && forall|i: int|
            0 <= i < x.len() ==> equal_values(#[trigger] x[i], y[i]),
        (JsonView::Object(x), JsonView::Object(y)) => x.len() == y.len() && forall|i: int|
            0 <= i < x.len() ==> (#[trigger] x[i]).0 == y[i].0 && equal_values(x[i].1, y[i].1),
        _ => a == b,
    }
}

impl Json {
    /// A string.
    pub fn text(text: &str) -> (r: Json)
        ensures
            r@ == JsonView::Text(text@),
    {
        Json::Text(text.to_owned())
    }

    /// A string, or null.
    pub fn optional_text(text: &Option<String>) -> (r: Json)
        ensures
            r@ == (match text.deep_view() {
                Some(t) => JsonView::Text(t),
                None => JsonView::Null,
            }),
    {
        match text {
            Some(t) => Json::Text(t.clone()),
            None => Json::Null,
        }
    }

    pub fn list(items: Vec<Json>) -> (r: Json)
        ensures
            r@ == JsonView::List(views(items@)),
    {
        let r = Json::List(items);
        assert(r@->List_0 =~= views(items@));
        r
    }

    pub fn object(members: Vec<Member>) -> (r: Json)
        ensures
            r@ == JsonView::Object(member_views(members@)),
    {
        let r = Json::Object(members);
        assert(r@->Object_0 =~= member_views(members@));
        r
    }

    pub fn get(&self, name: &str) -> (r: &Json)
        ensures
            r@ == member(self@, name@),
    {
        match self {
            Json::Object(members) => {
                let ghost shown = self@->Object_0;
                let mut i: usize = 0;
                assert(shown.skip(0) =~= shown);
                while i < members.len()
                    invariant
                        *self == Json::Object(*members),
                        shown == self@->Object_0,
                        i <= members.len(),
                        first_member(shown, name@) == first_member(shown.skip(i as int), name@),
                    decreases members.len() - i,
                {
                    if same(members[i].name.as_str(), name) {
                        return &members[i].value;
                    }
                    proof {
                        assert(shown.skip(i as int).drop_first() =~= shown.skip(i + 1));
                    }
                    i = i + 1;
                }
                &Json::Null
            },
            _ => &Json::Null,
        }
    }

    /// Whether this is an object that has a member with this name.
    pub fn has(&self, name: &str) -> (r: bool)
        ensures
            r == has_member(self@, name@),
    {
        match self {
            Json::Object(members) => {
                let ghost shown = self@->Object_0;
                for i in 0..members.len()
                    invariant
                        *self == Json::Object(*members),
                        shown == self@->Object_0,
                        forall|j: int| 0 <= j < i ==> (#[trigger] shown[j]).0 != name@,
                {
                    if same(members[i].name.as_str(), name) {
                        assert(shown[i as int].0 == name@);
                        return true;
                    }
                }
                false
            },
            _ => false,
        }
    }

    pub fn as_text(&self) -> (r: Option<&str>)
        ensures
            match r {
                Some(text) => text_in(self@) == Some(text@),
                None => text_in(self@) is None,
            },
    {
        match self {
            Json::Text(text) => Some(text.as_str()),
            _ => None,
        }
    }

    pub fn as_unsigned(&self) -> (r: Option<u64>)
        ensures
            r == unsigned_in(self@),
    {
        match self {
            Json::Unsigned(n) => Some(*n),
            _ => None,
        }
    }

    pub fn as_list(&self) -> (r: Option<&Vec<Json>>)
        ensures
            match r {
                Some(items) => list_in(self@) == Some(views(items@)),
                None => list_in(self@) is None,
            },
    {
        match self {
            Json::List(items) => {
                assert(self@->List_0 =~= views(items@));
                Some(items)
            },
            _ => None,
        }
    }

    pub fn is_true(&self) -> (r: bool)
        ensures
            r == (self@ == JsonView::Bool(true)),
    {
        match self {
            Json::Bool(b) => *b,
            _ => false,
        }
    }

    pub fn is_text(&self, text: &str) -> (r: bool)
        ensures
            r == (self@ == JsonView::Text(text@)),
    {
        match self {
            Json::Text(held) => same(held.as_str(), text),
            _ => false,
        }
    }

    pub fn is_null(&self) -> (r: bool)
        ensures
            r == (self@ is Null),
    {
        match self {
            Json::Null => true,
            _ => false,
        }
    }

    /// Whether two values are equal.
    pub fn equals(&self, other: &Json) -> (r: bool)
        ensures
            r == equal_values(self@, other@),
        decreases self,
    {
        match (self, other) {
            (Json::Null, Json::Null) => true,
            (Json::Bool(x), Json::Bool(y)) => *x == *y,
            (Json::Unsigned(x), Json::Unsigned(y)) => *x == *y,
            (Json::Number(x), Json::Number(y)) => {
                let (x, y) = (x.as_str(), y.as_str());
                same(x, y) || ((same(x, "0.0") || same(x, "-0.0")) && (same(y, "0.0") || same(
                    y,
                    "-0.0",
                )))
            },
            (Json::Text(x), Json::Text(y)) => same(x.as_str(), y.as_str()),
            (Json::List(x), Json::List(y)) => {
                if x.len() != y.len() {
                    assert(self@->List_0.len() != other@->List_0.len());
                    return false;
                }
                for i in 0..x.len()
                    invariant
                        *self == Json::List(*x),
                        *other == Json::List(*y),
                        x@.len() == y@.len(),
                        forall|j: int|
                            0 <= j < i ==> equal_values(
                                #[trigger] self@->List_0[j],
                                other@->List_0[j],
                            ),
                {
                    proof {
                        assert(decreases_to!(*self => self->List_0));
                        assert(decreases_to!(self->List_0 => self->List_0@));
                        assert(decreases_to!(self->List_0@ => self->List_0@[i as int]));
                    }
                    if !x[i].equals(&y[i]) {
                        assert(!equal_values(self@->List_0[i as int], other@->List_0[i as int]));
                        return false;
                    }
                }
                true
            },
            (Json::Object(x), Json::Object(y)) => {
                if x.len() != y.len() {
                    assert(self@->Object_0.len() != other@->Object_0.len());
                    return false;
                }
                for i in 0..x.len()
                    invariant
                        *self == Json::Object(*x),
                        *other == Json::Object(*y),
                        x@.len() == y@.len(),
                        forall|j: int|
                            0 <= j < i ==> (#[trigger] self@->Object_0[j]).0
                                == other@->Object_0[j].0 && equal_values(
                                self@->Object_0[j].1,
                                other@->Object_0[j].1,
                            ),
                {
                    proof {
                        assert(decreases_to!(*self => self->Object_0));
                        assert(decreases_to!(self->Object_0 => self->Object_0@));
                        assert(decreases_to!(self->Object_0@ => self->Object_0@[i as int]));
                        assert(decreases_to!(self->Object_0@[i as int] => self->Object_0@[i as int].value));
                    }
                    if !same(x[i].name.as_str(), y[i].name.as_str()) || !x[i].value.equals(
                        &y[i].value,
                    ) {
                        assert(self@->Object_0[i as int].0 != other@->Object_0[i as int].0 || !equal_values(
                            self@->Object_0[i as int].1,
                            other@->Object_0[i as int].1,
                        ));
                        return false;
                    }
                }
                true
            },
            _ => false,
        }
    }

    /// The value as compact JSON text.
    pub fn to_text(&self) -> (r: String)
        ensures
            r@ == json_text(self@),
        decreases self,
    {
        match self {
            Json::Null => "null".to_owned(),
            Json::Bool(b) => if *b {
                "true".to_owned()
            } else {
                "false".to_owned()
            },
            Json::Unsigned(n) => decimal_text(*n),
            Json::Number(text) => text.clone(),
            Json::Text(text) => quote(text.as_str()),
            Json::List(items) => {
                let ghost shown = self@->List_0;
                let mut out = String::new();
                out.push('[');
                assert(shown.skip(0) =~= shown);
                assert(out@ + items_text(shown) =~= seq!['['] + items_text(shown));
                for i in 0..items.len()
                    invariant
                        *self == Json::List(*items),
                        shown == self@->List_0,
                        seq!['['] + items_text(shown) == out@ + items_text(shown.skip(i as int)),
                {
                    let ghost held = out@;
                    let ghost rest = shown.skip(i as int);
                    proof {
                        assert(decreases_to!(*self => self->List_0));
                        assert(decreases_to!(self->List_0 => self->List_0@));
                        assert(decreases_to!(self->List_0@ => self->List_0@[i as int]));
                    }
                    let item = items[i].to_text();
                    out.append(item.as_str());
                    proof {
                        assert(rest.drop_first() =~= shown.skip(i + 1));
                        assert(rest[0] == items@[i as int]@);
                    }
                    if i + 1 < items.len() {
                        out.push(',');
                        assert(held + (item@ + seq![','] + items_text(rest.drop_first())) =~= out@
                            + items_text(shown.skip(i + 1)));
                    } else {
                        assert(shown.skip(i + 1).len() == 0);
                        assert(held + item@ =~= out@ + Seq::<char>::empty());
                    }
                }
                proof {
                    assert(shown.skip(items@.len() as int).len() == 0);
                    assert(out@ + Seq::<char>::empty() =~= out@);
                }
                out.push(']');
                assert(out@ =~= seq!['['] + items_text(shown) + seq![']']);
                out
            },
            Json::Object(members) => {
                let ghost shown = self@->Object_0;
                let mut out = String::new();
                out.push('{');
                assert(shown.skip(0) =~= shown);
                assert(out@ + members_text(shown) =~= seq!['{'] + members_text(shown));
                for i in 0..members.len()
                    invariant
                        *self == Json::Object(*members),
                        shown == self@->Object_0,
                        seq!['{'] + members_text(shown) == out@ + members_text(shown.skip(i as int)),
                {
                    let ghost held = out@;
                    let ghost rest = shown.skip(i as int);
                    let name = quote(members[i].name.as_str());
                    proof {
                        assert(decreases_to!(*self => self->Object_0));
                        assert(decreases_to!(self->Object_0 => self->Object_0@));
                        assert(decreases_to!(self->Object_0@ => self->Object_0@[i as int]));
                        assert(decreases_to!(self->Object_0@[i as int] => self->Object_0@[i as int].value));
                    }
                    let item = members[i].value.to_text();
                    out.append(name.as_str());
                    out.push(':');
                    out.append(item.as_str());
                    proof {
                        assert(rest.drop_first() =~= shown.skip(i + 1));
                        assert(rest[0] == (members@[i as int].name@, members@[i as int].value@));
                    }
                    if i + 1 < members.len() {
                        out.push(',');
                        assert(held + (name@ + seq![':'] + item@ + seq![','] + members_text(
                            rest.drop_first(),
                        )) =~= out@ + members_text(shown.skip(i + 1)));
                    } else {
                        assert(shown.skip(i + 1).len() == 0);
                        assert(held + (name@ + seq![':'] + item@) =~= out@ + Seq::<char>::empty());
                    }
                }
                proof {
                    assert(shown.skip(members@.len() as int).len() == 0);
                    assert(out@ + Seq::<char>::empty() =~= out@);
                }
                out.push('}');
                assert(out@ =~= seq!['{'] + members_text(shown) + seq!['}']);
                out
            },
        }
    }
}

/// A member of an object.
pub fn named(name: &str, value: Json) -> (r: Member)
    ensures
        r.name@ == name@,
        r.value == value,
{
    Member { name: name.to_owned(), value }
}

impl Clone for Json {
    fn clone(&self) -> (r: Self)
        ensures
            r@ == self@,
        decreases self,
    {
        match self {
            Json::Null => Json::Null,
            Json::Bool(b) => Json::Bool(*b),
            Json::Unsigned(n) => Json::Unsigned(*n),
            Json::Number(text) => Json::Number(text.clone()),
            Json::Text(text) => Json::Text(text.clone()),
            Json::List(items) => {
                let mut list: Vec<Json> = Vec::new();
                for i in 0..items.len()
                    invariant
                        *self == Json::List(*items),
                        list@.len() == i,
                        forall|j: int| 0 <= j < i ==> (#[trigger] list@[j])@ == items@[j]@,
                {
                    proof {
                        assert(decreases_to!(*self => self->List_0));
                        assert(decreases_to!(self->List_0 => self->List_0@));
                        assert(decreases_to!(self->List_0@ => self->List_0@[i as int]));
                    }
                    list.push(items[i].clone());
                }
                let r = Json::List(list);
                assert(r@->List_0 =~= self@->List_0);
                r
            },
            Json::Object(members) => {
                let mut list: Vec<Member> = Vec::new();
                for i in 0..members.len()
                    invariant
                        *self == Json::Object(*members),
                        list@.len() == i,
                        forall|j: int|
                            0 <= j < i ==> (#[trigger] list@[j]).name@ == members@[j].name@
                                && list@[j].value@ == members@[j].value@,
                {
                    proof {
                        assert(decreases_to!(*self => self->Object_0));
                        assert(decreases_to!(self->Object_0 => self->Object_0@));
                        assert(decreases_to!(self->Object_0@ => self->Object_0@[i as int]));
                        assert(decreases_to!(self->Object_0@[i as int] => self->Object_0@[i as int].value));
                    }
                    let name = members[i].name.clone();
                    let value = members[i].value.clone();
                    list.push(Member { name, value });
                }
                let r = Json::Object(list);
                assert(r@->Object_0 =~= self@->Object_0);
                r
            },
        }
    }
}

/// The view of an optional value.
pub open spec fn optional_view(value: Option<Json>) -> Option<JsonView> {
    match value {
        Some(v) => Some(v@),
        None => None,
    }
}

} // verus!
