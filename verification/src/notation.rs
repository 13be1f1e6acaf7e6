//! JSON text is unambiguous: different values have different texts.
use vstd::prelude::*;

use crate::json::{
    all_escaped, escaped, items_text, json_text, members_text, quoted, JsonView,
};
use crate::number::{decimal, law_decimal_reads_back, lemma_decimal_value, numeral, parsed};
use crate::text::digit;

verus! {

/// A character of a number's notation.
pub open spec fn number_char(c: char) -> bool {
    digit(c) || c == '-' || c == '+' || c == '.' || c == 'e' || c == 'E'
}

/// The notation of a number that is no unsigned 64-bit integer.
pub open spec fn is_notation(text: Seq<char>) -> bool {
    &&& text.len() > 0
    &&& digit(text[0]) || text[0] == '-'
    &&& forall|i: int| 0 <= i < text.len() ==> number_char(#[trigger] text[i])
    &&& parsed(text) is None
}

/// Whether each number in a value is kept as such: an unsigned 64-bit integer as itself, any
/// other by its notation.
pub open spec fn well_written(value: JsonView) -> bool
    decreases value,
{
    match value {
        JsonView::Number(text) => is_notation(text),
        JsonView::List(items) => forall|i: int|
            0 <= i < items.len() ==> well_written(#[trigger] items[i]),
        JsonView::Object(members) => forall|i: int|
            0 <= i < members.len() ==> well_written((#[trigger] members[i]).1),
        _ => true,
    }
}

/// Whether a text is at its end, or what follows belongs to an enclosing value.
pub open spec fn delimited(text: Seq<char>) -> bool {
    text.len() == 0 || text[0] == ',' || text[0] == ']' || text[0] == '}'
}

proof fn lemma_numeral(a: int, b: int)
    requires
        0 <= a < 16,
        0 <= b < 16,
        numeral(a) == numeral(b),
    ensures
        a == b,
{
}

/// No escape is the beginning of another one, and none begins with a quotation mark.
proof fn lemma_escape(c: char, d: char, u: Seq<char>, v: Seq<char>)
    ensures
        escaped(c).len() > 0,
        escaped(c)[0] != '"',
        escaped(c) + u == escaped(d) + v ==> c == d && u == v,
{
    let e = escaped(c);
    let f = escaped(d);
    if e + u == f + v {
        let w = e + u;
        assert(w[0] == e[0] && w[0] == f[0]);
        if e.len() > 1 && f.len() > 1 {
            assert(w[1] == e[1] && w[1] == f[1]);
            if e.len() == 6 {
                assert(w[4] == e[4] && w[4] == f[4]);
                assert(w[5] == e[5] && w[5] == f[5]);
                let x = c as u8;
                let y = d as u8;
                lemma_numeral(x as int / 16, y as int / 16);
                lemma_numeral(x as int % 16, y as int % 16);
                assert(c as u32 == d as u32);
            }
        }
        assert(c == d);
        assert(u =~= w.skip(e.len() as int));
        assert(v =~= w.skip(e.len() as int));
    }
}

/// Characters are escaped from the front as from the back.
proof fn lemma_escaped_front(text: Seq<char>)
    requires
        text.len() > 0,
    ensures
        all_escaped(text) == escaped(text[0]) + all_escaped(text.drop_first()),
    decreases text.len(),
{
    if text.len() == 1 {
        assert(all_escaped(text.drop_last()) =~= Seq::<char>::empty());
        assert(all_escaped(text.drop_first()) =~= Seq::<char>::empty());
        assert(all_escaped(text) =~= escaped(text[0]) + all_escaped(text.drop_first()));
    } else {
        let rest = text.drop_first();
        lemma_escaped_front(text.drop_last());
        assert(text.drop_last().drop_first() =~= rest.drop_last());
        assert(rest.last() == text.last());
        assert(all_escaped(text) =~= escaped(text[0]) + all_escaped(rest));
    }
}

/// Where a string ends can be told from its text.
proof fn lemma_escaped_apart(a: Seq<char>, b: Seq<char>, x: Seq<char>, y: Seq<char>)
    requires
        all_escaped(a) + seq!['"'] + x == all_escaped(b) + seq!['"'] + y,
    ensures
        a == b,
        x == y,
    decreases a.len(),
{
    let w = all_escaped(a) + seq!['"'] + x;
    if a.len() > 0 {
        lemma_escaped_front(a);
        lemma_escape(a[0], a[0], x, x);
        assert(w[0] == escaped(a[0])[0]);
    }
    if b.len() > 0 {
        lemma_escaped_front(b);
        lemma_escape(b[0], b[0], x, x);
        assert(w[0] == escaped(b[0])[0]);
    }
    if a.len() == 0 {
        assert(w[0] == '"');
        assert(b.len() == 0);
        assert(a =~= b);
        assert(x =~= w.skip(1));
        assert(y =~= w.skip(1));
    } else {
        if b.len() == 0 {
            assert(w[0] == '"');
        }
        let u = all_escaped(a.drop_first()) + seq!['"'] + x;
        let v = all_escaped(b.drop_first()) + seq!['"'] + y;
        assert(w =~= escaped(a[0]) + u);
        assert(w =~= escaped(b[0]) + v);
        lemma_escape(a[0], b[0], u, v);
        lemma_escaped_apart(a.drop_first(), b.drop_first(), x, y);
        assert(a =~= seq![a[0]] + a.drop_first());
        assert(b =~= seq![b[0]] + b.drop_first());
    }
}

/// Where a quoted text ends can be told from its text.
proof fn lemma_quoted_apart(a: Seq<char>, b: Seq<char>, x: Seq<char>, y: Seq<char>)
    requires
        quoted(a) + x == quoted(b) + y,
    ensures
        a == b,
        x == y,
{
    let u = all_escaped(a) + seq!['"'] + x;
    let v = all_escaped(b) + seq!['"'] + y;
    let w = quoted(a) + x;
    assert(u =~= w.skip(1));
    assert(v =~= w.skip(1));
    lemma_escaped_apart(a, b, x, y);
}

/// Where a number ends can be told from what follows it.
proof fn lemma_number_apart(p: Seq<char>, q: Seq<char>, x: Seq<char>, y: Seq<char>)
    requires
        forall|i: int| 0 <= i < p.len() ==> number_char(#[trigger] p[i]),
        forall|i: int| 0 <= i < q.len() ==> number_char(#[trigger] q[i]),
        delimited(x),
        delimited(y),
        p + x == q + y,
    ensures
        p == q,
        x == y,
{
    let w = p + x;
    if p.len() < q.len() {
        assert(w[p.len() as int] == x[0]);
        assert(w[p.len() as int] == q[p.len() as int]);
        assert(number_char(q[p.len() as int]));
    }
    if q.len() < p.len() {
        assert(w[q.len() as int] == y[0]);
        assert(w[q.len() as int] == p[q.len() as int]);
        assert(number_char(p[q.len() as int]));
    }
    assert(p =~= w.take(p.len() as int));
    assert(q =~= w.take(p.len() as int));
    assert(x =~= w.skip(p.len() as int));
    assert(y =~= w.skip(p.len() as int));
}

/// An unsigned integer's text is made of digits, and no other number has it.
proof fn lemma_decimal_written(n: u64)
    ensures
        decimal(n as nat).len() > 0,
        forall|i: int| 0 <= i < decimal(n as nat).len() ==> number_char(#[trigger] decimal(n as nat)[i]),
        digit(decimal(n as nat)[0]),
        parsed(decimal(n as nat)) == Some(n),
{
    lemma_decimal_value(n as nat);
    law_decimal_reads_back(n);
    assert forall|i: int| 0 <= i < decimal(n as nat).len() implies number_char(
        #[trigger] decimal(n as nat)[i],
    ) by {
        assert(digit(decimal(n as nat)[i]));
    }
}

/// What a value's text begins with tells what kind of value it is.
proof fn lemma_beginning(value: JsonView)
    requires
        well_written(value),
    ensures
        json_text(value).len() > 0,
        match value {
            JsonView::Null => json_text(value)[0] == 'n',
            JsonView::Bool(b) => json_text(value)[0] == (if b {
                't'
            } else {
                'f'
            }),
            JsonView::Unsigned(_) => digit(json_text(value)[0]),
            JsonView::Number(_) => digit(json_text(value)[0]) || json_text(value)[0] == '-',
            JsonView::Text(_) => json_text(value)[0] == '"',
            JsonView::List(_) => json_text(value)[0] == '[',
            JsonView::Object(_) => json_text(value)[0] == '{',
        },
{
    reveal_strlit("null");
    reveal_strlit("true");
    reveal_strlit("false");
    if let JsonView::Unsigned(n) = value {
        lemma_decimal_written(n);
    }
}

/// Where a value ends can be told from its text and what follows it.
proof fn lemma_value_apart(a: JsonView, b: JsonView, x: Seq<char>, y: Seq<char>)
    requires
        well_written(a),
        well_written(b),
        delimited(x),
        delimited(y),
        json_text(a) + x == json_text(b) + y,
    ensures
        a == b,
        x == y,
    decreases a,
{
    let w = json_text(a) + x;
    lemma_beginning(a);
    lemma_beginning(b);
    assert(w[0] == json_text(a)[0]);
    assert(w[0] == json_text(b)[0]);
    match (a, b) {
        (JsonView::Unsigned(m), JsonView::Unsigned(n)) => {
            lemma_decimal_written(m);
            lemma_decimal_written(n);
            lemma_number_apart(decimal(m as nat), decimal(n as nat), x, y);
        },
        (JsonView::Unsigned(m), JsonView::Number(t)) => {
            lemma_decimal_written(m);
            lemma_number_apart(decimal(m as nat), t, x, y);
        },
        (JsonView::Number(s), JsonView::Unsigned(n)) => {
            lemma_decimal_written(n);
            lemma_number_apart(s, decimal(n as nat), x, y);
        },
        (JsonView::Number(s), JsonView::Number(t)) => lemma_number_apart(s, t, x, y),
        (JsonView::Text(s), JsonView::Text(t)) => lemma_quoted_apart(s, t, x, y),
        (JsonView::List(s), JsonView::List(t)) => {
            assert(items_text(s) + seq![']'] + x =~= w.skip(1));
            assert(items_text(t) + seq![']'] + y =~= w.skip(1));
            lemma_items_apart(s, t, x, y);
        },
        (JsonView::Object(s), JsonView::Object(t)) => {
            assert(members_text(s) + seq!['}'] + x =~= w.skip(1));
            assert(members_text(t) + seq!['}'] + y =~= w.skip(1));
            lemma_members_apart(s, t, x, y);
        },
        _ => {
            assert(a == b);
            assert(x =~= w.skip(json_text(a).len() as int));
            assert(y =~= w.skip(json_text(a).len() as int));
        },
    }
}

/// What follows the first of some items.
spec fn behind(items: Seq<JsonView>, x: Seq<char>) -> Seq<char> {
    if items.len() == 1 {
        seq![']'] + x
    } else {
        seq![','] + items_text(items.drop_first()) + seq![']'] + x
    }
}

/// Where a list ends can be told from its text.
proof fn lemma_items_apart(a: Seq<JsonView>, b: Seq<JsonView>, x: Seq<char>, y: Seq<char>)
    requires
        forall|i: int| 0 <= i < a.len() ==> well_written(#[trigger] a[i]),
        forall|i: int| 0 <= i < b.len() ==> well_written(#[trigger] b[i]),
        items_text(a) + seq![']'] + x == items_text(b) + seq![']'] + y,
    ensures
        a == b,
        x == y,
    decreases a,
{
    let w = items_text(a) + seq![']'] + x;
    if a.len() > 0 {
        lemma_beginning(a[0]);
        assert(w =~= json_text(a[0]) + behind(a, x));
        assert(w[0] == json_text(a[0])[0]);
    }
    if b.len() > 0 {
        lemma_beginning(b[0]);
        assert(w =~= json_text(b[0]) + behind(b, y));
        assert(w[0] == json_text(b[0])[0]);
    }
    if a.len() == 0 || b.len() == 0 {
        assert(w[0] == ']');
        assert(a =~= b);
        assert(x =~= w.skip(1));
        assert(y =~= w.skip(1));
    } else {
        lemma_value_apart(a[0], b[0], behind(a, x), behind(b, y));
        let s = a.drop_first();
        let t = b.drop_first();
        let u = behind(a, x);
        assert(u[0] == (if a.len() == 1 {
            ']'
        } else {
            ','
        }));
        assert(u[0] == (if b.len() == 1 {
            ']'
        } else {
            ','
        }));
        if a.len() == 1 {
            assert(x =~= u.skip(1));
            assert(y =~= u.skip(1));
        } else {
            assert(items_text(s) + seq![']'] + x =~= u.skip(1));
            assert(items_text(t) + seq![']'] + y =~= u.skip(1));
            assert forall|i: int| 0 <= i < s.len() implies well_written(#[trigger] s[i]) by {
                assert(well_written(a[i + 1]));
            }
            assert forall|i: int| 0 <= i < t.len() implies well_written(#[trigger] t[i]) by {
                assert(well_written(b[i + 1]));
            }
            lemma_items_apart(s, t, x, y);
        }
        assert(a =~= seq![a[0]] + s);
        assert(b =~= seq![b[0]] + t);
    }
}

/// What follows the value of the first of some members.
spec fn beyond(members: Seq<(Seq<char>, JsonView)>, x: Seq<char>) -> Seq<char> {
    if members.len() == 1 {
        seq!['}'] + x
    } else {
        seq![','] + members_text(members.drop_first()) + seq!['}'] + x
    }
}

/// Where an object ends can be told from its text.
proof fn lemma_members_apart(
    a: Seq<(Seq<char>, JsonView)>,
    b: Seq<(Seq<char>, JsonView)>,
    x: Seq<char>,
    y: Seq<char>,
)
    requires
        forall|i: int| 0 <= i < a.len() ==> well_written((#[trigger] a[i]).1),
        forall|i: int| 0 <= i < b.len() ==> well_written((#[trigger] b[i]).1),
        members_text(a) + seq!['}'] + x == members_text(b) + seq!['}'] + y,
    ensures
        a == b,
        x == y,
    decreases a,
{
    let w = members_text(a) + seq!['}'] + x;
    if a.len() > 0 {
        assert(w =~= quoted(a[0].0) + (seq![':'] + json_text(a[0].1) + beyond(a, x)));
        assert(w[0] == '"');
    }
    if b.len() > 0 {
        assert(w =~= quoted(b[0].0) + (seq![':'] + json_text(b[0].1) + beyond(b, y)));
        assert(w[0] == '"');
    }
    if a.len() == 0 || b.len() == 0 {
        assert(w[0] == '}');
        assert(a =~= b);
        assert(x =~= w.skip(1));
        assert(y =~= w.skip(1));
    } else {
        let p = seq![':'] + json_text(a[0].1) + beyond(a, x);
        let q = seq![':'] + json_text(b[0].1) + beyond(b, y);
        lemma_quoted_apart(a[0].0, b[0].0, p, q);
        assert(json_text(a[0].1) + beyond(a, x) =~= p.skip(1));
        assert(json_text(b[0].1) + beyond(b, y) =~= p.skip(1));
        lemma_value_apart(a[0].1, b[0].1, beyond(a, x), beyond(b, y));
        let s = a.drop_first();
        let t = b.drop_first();
        let u = beyond(a, x);
        assert(u[0] == (if a.len() == 1 {
            '}'
        } else {
            ','
        }));
        assert(u[0] == (if b.len() == 1 {
            '}'
        } else {
            ','
        }));
        if a.len() == 1 {
            assert(x =~= u.skip(1));
            assert(y =~= u.skip(1));
        } else {
            assert(members_text(s) + seq!['}'] + x =~= u.skip(1));
            assert(members_text(t) + seq!['}'] + y =~= u.skip(1));
            assert forall|i: int| 0 <= i < s.len() implies well_written((#[trigger] s[i]).1) by {
                assert(well_written(a[i + 1].1));
            }
            assert forall|i: int| 0 <= i < t.len() implies well_written((#[trigger] t[i]).1) by {
                assert(well_written(b[i + 1].1));
            }
            lemma_members_apart(s, t, x, y);
        }
        assert(a =~= seq![a[0]] + s);
        assert(b =~= seq![b[0]] + t);
    }
}

/// Values with the same text are the same.
pub proof fn law_text_tells_values_apart(a: JsonView, b: JsonView)
    requires
        well_written(a),
        well_written(b),
        json_text(a) == json_text(b),
    ensures
        a == b,
{
    let end = Seq::<char>::empty();
    assert(json_text(a) + end =~= json_text(a));
    assert(json_text(b) + end =~= json_text(b));
    lemma_value_apart(a, b, end, end);
}

} // verus!
