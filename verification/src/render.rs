//! Rendering a structured value as plain text and as JSON.
//!
//! Both renderings are canonical: arrays and records carry no spaces
//! around their separators, and JSON strings escape the quote, the
//! backslash, and the newline, carriage-return and tab controls.

use vstd::prelude::*;
use crate::text::dec_str_int;
use crate::text::i128_to_string;
use crate::text::push_char;
use crate::value::Value;
use vstd::string::StrSliceExecFns;
use vstd::string::StringExecFns;

verus! {

/// The plain-text rendering of a value: text and error values are their
/// text, scalars their literals, unit the empty text, arrays and
/// records their bracketed, comma-separated elements, and a callable or
/// opaque host value a fixed marker; an early return renders as what it
/// wraps.
pub open spec fn plain_of(v: Value) -> Seq<char>
    decreases v, 0int, 0int,
{
    match v {
        Value::Null => "null"@,
        Value::Bool(b) => if b {
            "true"@
        } else {
            "false"@
        },
        Value::Int(n) => dec_str_int(n as int),
        Value::Str(s) => s@,
        Value::Array(items) => "["@ + plain_items(items@) + "]"@,
        Value::Record(entries) => "{"@ + plain_entries(entries@) + "}"@,
        Value::Error(m) => m@,
        Value::Unit => Seq::empty(),
        Value::Function { .. } => "<function>"@,
        Value::Opaque => "<opaque>"@,
        Value::EarlyReturn(b) => plain_of(*b),
    }
}

/// The comma-separated plain renderings of the items.
pub open spec fn plain_items(items: Seq<Value>) -> Seq<char>
    decreases items, items.len(), 1int,
{
    if items.len() == 0 {
        Seq::empty()
    } else {
        plain_of(items[0]) + plain_rest(items, 1)
    }
}

/// The plain renderings of the items from `j` on, each preceded by a
/// comma separator.
pub open spec fn plain_rest(items: Seq<Value>, j: int) -> Seq<char>
    decreases items, items.len() - j, 1int,
{
    if j < 0 || j >= items.len() {
        Seq::empty()
    } else {
        ", "@ + plain_of(items[j]) + plain_rest(items, j + 1)
    }
}

/// The comma-separated `key: value` plain renderings of the entries.
pub open spec fn plain_entries(entries: Seq<(String, Value)>) -> Seq<char>
    decreases entries, entries.len(), 1int,
{
    if entries.len() == 0 {
        Seq::empty()
    } else {
        entries[0].0@ + ": "@ + plain_of(entries[0].1) + plain_entries_rest(entries, 1)
    }
}

/// The entry renderings from `j` on, each preceded by a comma
/// separator.
pub open spec fn plain_entries_rest(entries: Seq<(String, Value)>, j: int) -> Seq<char>
    decreases entries, entries.len() - j, 1int,
{
    if j < 0 || j >= entries.len() {
        Seq::empty()
    } else {
        ", "@ + entries[j].0@ + ": "@ + plain_of(entries[j].1) + plain_entries_rest(entries, j + 1)
    }
}

/// Renders a value as plain text.
#[verifier::loop_isolation(false)]
pub fn render_plain(v: &Value) -> (r: String)
    ensures
        r@ == plain_of(*v),
    decreases *v,
{
    match v {
        Value::Null => "null".to_owned(),
        Value::Bool(b) => if *b {
            "true".to_owned()
        } else {
            "false".to_owned()
        },
        Value::Int(n) => i128_to_string(*n),
        Value::Str(s) => s.clone(),
        Value::Array(items) => {
            let mut acc = String::new();
            acc.append("[");
            let n = items.len();
            if n > 0 {
                proof {
                    assert(decreases_to!(*v => (*v)->Array_0));
                    assert((*v)->Array_0 == *items);
                    assert(decreases_to!(*items => items@[0]));
                    assert(decreases_to!(*v => items@[0]));
                }
                let first = render_plain(&items[0]);
                acc.append(first.as_str());
                proof {
                    assert(acc@ + plain_rest(items@, 1) =~= "["@ + plain_items(items@));
                }
                for j in 1..n
                    invariant
                        n == items@.len(),
                        acc@ + plain_rest(items@, j as int) =~= "["@ + plain_items(items@),
                    decreases n - j,
                {
                    acc.append(", ");
                    proof {
                        assert(decreases_to!(*v => (*v)->Array_0));
                        assert((*v)->Array_0 == *items);
                        assert(decreases_to!(*items => items@[j as int]));
                        assert(decreases_to!(*v => items@[j as int]));
                    }
                    let piece = render_plain(&items[j]);
                    acc.append(piece.as_str());
                    proof {
                        assert(acc@ + plain_rest(items@, j + 1) =~= ("["@ + plain_items(items@)));
                    }
                }
                proof {
                    assert(plain_rest(items@, n as int) =~= Seq::<char>::empty());
                    assert(acc@ =~= "["@ + plain_items(items@));
                }
            } else {
                proof {
                    assert(acc@ =~= "["@ + plain_items(items@));
                }
            }
            acc.append("]");
            proof {
                assert(acc@ =~= plain_of(*v));
            }
            acc
        },
        Value::Record(entries) => {
            let mut acc = String::new();
            acc.append("{");
            let n = entries.len();
            if n > 0 {
                acc.append(entries[0].0.as_str());
                acc.append(": ");
                proof {
                    assert(decreases_to!(*v => (*v)->Record_0));
                    assert((*v)->Record_0 == *entries);
                    assert(decreases_to!(*entries => entries@[0]));
                    assert(decreases_to!(entries@[0] => entries@[0].1));
                    assert(decreases_to!(*v => entries@[0].1));
                }
                let first = render_plain(&entries[0].1);
                acc.append(first.as_str());
                proof {
                    assert(acc@ + plain_entries_rest(entries@, 1) =~= "{"@ + plain_entries(
                        entries@,
                    ));
                }
                for j in 1..n
                    invariant
                        n == entries@.len(),
                        acc@ + plain_entries_rest(entries@, j as int) =~= "{"@ + plain_entries(
                            entries@,
                        ),
                    decreases n - j,
                {
                    acc.append(", ");
                    acc.append(entries[j].0.as_str());
                    acc.append(": ");
                    proof {
                        assert(decreases_to!(*v => (*v)->Record_0));
                        assert((*v)->Record_0 == *entries);
                        assert(decreases_to!(*entries => entries@[j as int]));
                        assert(decreases_to!(entries@[j as int] => entries@[j as int].1));
                        assert(decreases_to!(*v => entries@[j as int].1));
                    }
                    let piece = render_plain(&entries[j].1);
                    acc.append(piece.as_str());
                    proof {
                        assert(acc@ + plain_entries_rest(entries@, j + 1) =~= ("{"@ + plain_entries(
                            entries@,
                        )));
                    }
                }
                proof {
                    assert(plain_entries_rest(entries@, n as int) =~= Seq::<char>::empty());
                }
            }
            proof {
                assert(acc@ =~= "{"@ + plain_entries(entries@));
            }
            acc.append("}");
            proof {
                assert(acc@ =~= plain_of(*v));
            }
            acc
        },
        Value::Error(m) => m.clone(),
        Value::Unit => String::new(),
        Value::Function { .. } => "<function>".to_owned(),
        Value::Opaque => "<opaque>".to_owned(),
        Value::EarlyReturn(b) => {
            proof {
                assert(decreases_to!(*v => **b));
            }
            render_plain(b)
        },
    }
}

/// The escape of one character inside a JSON string.
pub open spec fn json_escape_char(c: char) -> Seq<char> {
    if c == '"' {
        seq!['\\', '"']
    } else if c == '\\' {
        seq!['\\', '\\']
    } else if c == '\n' {
        seq!['\\', 'n']
    } else if c == '\r' {
        seq!['\\', 'r']
    } else if c == '\t' {
        seq!['\\', 't']
    } else {
        seq![c]
    }
}

/// The body of a JSON string: every character escaped.
pub open spec fn json_escape(s: Seq<char>) -> Seq<char>
    decreases s.len(),
{
    if s.len() == 0 {
        Seq::empty()
    } else {
        json_escape_char(s[0]) + json_escape(s.subrange(1, s.len() as int))
    }
}

proof fn lemma_json_escape_snoc(s: Seq<char>)
    requires
        s.len() > 0,
    ensures
        json_escape(s) == json_escape(s.subrange(0, s.len() - 1)) + json_escape_char(
            s[s.len() - 1],
        ),
    decreases s.len(),
{
    if s.len() == 1 {
        assert(s.subrange(1, 1) =~= Seq::<char>::empty());
        assert(s.subrange(0, 0) =~= Seq::<char>::empty());
        assert(json_escape(s) =~= json_escape(s.subrange(0, 0)) + json_escape_char(s[0]));
    } else {
        let tail = s.subrange(1, s.len() as int);
        lemma_json_escape_snoc(tail);
        assert(tail.subrange(0, tail.len() - 1) =~= s.subrange(0, s.len() - 1).subrange(
            1,
            s.len() - 1,
        ));
        assert(json_escape(s.subrange(0, s.len() - 1)) == json_escape_char(s[0]) + json_escape(
            s.subrange(0, s.len() - 1).subrange(1, s.len() - 1),
        ));
        assert(json_escape(s) =~= json_escape(s.subrange(0, s.len() - 1)) + json_escape_char(
            s.last(),
        ));
    }
}

/// Appends the escaped body of `s` to `acc`.
#[verifier::loop_isolation(false)]
pub(crate) fn append_json_escaped(acc: &mut String, s: &str)
    ensures
        final(acc)@ == old(acc)@ + json_escape(s@),
{
    let n = s.unicode_len();
    proof {
        assert(s@.subrange(0, 0) =~= Seq::<char>::empty());
        assert(old(acc)@ =~= old(acc)@ + json_escape(s@.subrange(0, 0)));
    }
    for i in 0..n
        invariant
            n == s@.len(),
            acc@ =~= old(acc)@ + json_escape(s@.subrange(0, i as int)),
    {
        let c = s.get_char(i);
        if c == '"' {
            push_char(acc, '\\');
            push_char(acc, '"');
        } else if c == '\\' {
            push_char(acc, '\\');
            push_char(acc, '\\');
        } else if c == '\n' {
            push_char(acc, '\\');
            push_char(acc, 'n');
        } else if c == '\r' {
            push_char(acc, '\\');
            push_char(acc, 'r');
        } else if c == '\t' {
            push_char(acc, '\\');
            push_char(acc, 't');
        } else {
            push_char(acc, c);
        }
        proof {
            let pre = s@.subrange(0, i + 1);
            lemma_json_escape_snoc(pre);
            assert(pre.subrange(0, pre.len() - 1) =~= s@.subrange(0, i as int));
            assert(pre[pre.len() - 1] == s@[i as int]);
            assert(acc@ =~= old(acc)@ + json_escape(s@.subrange(0, i + 1)));
        }
    }
    proof {
        assert(s@.subrange(0, s@.len() as int) =~= s@);
    }
}

/// The JSON rendering of a value, when it has one: null, booleans,
/// integers, strings, arrays and records render; error and unit
/// markers, callables and opaque host values have no JSON form, nor
/// does an early return.
pub open spec fn json_of(v: Value) -> Option<Seq<char>>
    decreases v, 0int, 0int,
{
    match v {
        Value::Null => Some("null"@),
        Value::Bool(b) => Some(
            if b {
                "true"@
            } else {
                "false"@
            },
        ),
        Value::Int(n) => Some(dec_str_int(n as int)),
        Value::Str(s) => Some(seq!['"'] + json_escape(s@) + seq!['"']),
        Value::Array(items) => match json_items(items@) {
            Some(t) => Some(seq!['['] + t + seq![']']),
            None => None,
        },
        Value::Record(entries) => match json_entries(entries@) {
            Some(t) => Some(seq!['{'] + t + seq!['}']),
            None => None,
        },
        _ => None,
    }
}

/// The comma-separated JSON renderings of the items, when every item
/// has one.
pub open spec fn json_items(items: Seq<Value>) -> Option<Seq<char>>
    decreases items, items.len(), 1int,
{
    if items.len() == 0 {
        Some(Seq::empty())
    } else {
        match (json_of(items[0]), json_rest(items, 1)) {
            (Some(h), Some(t)) => Some(h + t),
            _ => None,
        }
    }
}

/// The JSON renderings of the items from `j` on, each preceded by a
/// comma.
pub open spec fn json_rest(items: Seq<Value>, j: int) -> Option<Seq<char>>
    decreases items, items.len() - j, 1int,
{
    if j < 0 || j >= items.len() {
        Some(Seq::empty())
    } else {
        match (json_of(items[j]), json_rest(items, j + 1)) {
            (Some(h), Some(t)) => Some(seq![','] + h + t),
            _ => None,
        }
    }
}

/// The comma-separated JSON member renderings of the entries, when
/// every value has one.
pub open spec fn json_entries(entries: Seq<(String, Value)>) -> Option<Seq<char>>
    decreases entries, entries.len(), 1int,
{
    if entries.len() == 0 {
        Some(Seq::empty())
    } else {
        match (json_of(entries[0].1), json_entries_rest(entries, 1)) {
            (Some(h), Some(t)) => Some(
                seq!['"'] + json_escape(entries[0].0@) + seq!['"', ':'] + h + t,
            ),
            _ => None,
        }
    }
}

/// The JSON member renderings from `j` on, each preceded by a comma.
pub open spec fn json_entries_rest(entries: Seq<(String, Value)>, j: int) -> Option<Seq<char>>
    decreases entries, entries.len() - j, 1int,
{
    if j < 0 || j >= entries.len() {
        Some(Seq::empty())
    } else {
        match (json_of(entries[j].1), json_entries_rest(entries, j + 1)) {
            (Some(h), Some(t)) => Some(
                seq![','] + seq!['"'] + json_escape(entries[j].0@) + seq!['"', ':'] + h + t,
            ),
            _ => None,
        }
    }
}

/// Renders a value as JSON, or reports that it has no JSON form.
#[verifier::loop_isolation(false)]
pub fn render_json(v: &Value) -> (r: Option<String>)
    ensures
        match r {
            Some(s) => json_of(*v) == Some(s@),
            None => json_of(*v) is None,
        },
    decreases *v, 1int,
{
    match v {
        Value::Null => Some("null".to_owned()),
        Value::Bool(b) => Some(
            if *b {
                "true".to_owned()
            } else {
                "false".to_owned()
            },
        ),
        Value::Int(n) => Some(i128_to_string(*n)),
        Value::Str(s) => {
            let mut acc = String::new();
            push_char(&mut acc, '"');
            append_json_escaped(&mut acc, s.as_str());
            push_char(&mut acc, '"');
            proof {
                assert(acc@ =~= seq!['"'] + json_escape(s@) + seq!['"']);
            }
            Some(acc)
        },
        Value::Array(items) => {
            proof {
                assert(decreases_to!(*v => (*v)->Array_0));
                assert((*v)->Array_0 == *items);
            }
            render_json_array(items)
        },
        Value::Record(entries) => {
            proof {
                assert(decreases_to!(*v => (*v)->Record_0));
                assert((*v)->Record_0 == *entries);
            }
            render_json_record(entries)
        },
        _ => None,
    }
}

/// Renders an array's JSON text, brackets included.
#[verifier::loop_isolation(false)]
#[verifier::rlimit(50)]
fn render_json_array(items: &Vec<Value>) -> (r: Option<String>)
    ensures
        match r {
            Some(s) => json_items(items@) matches Some(t) && s@ == seq!['['] + t + seq![']'],
            None => json_items(items@) is None,
        },
    decreases *items, 0int,
{
    let mut acc = String::new();
    push_char(&mut acc, '[');
    let n = items.len();
    if n == 0 {
        push_char(&mut acc, ']');
        proof {
            assert(json_items(items@) == Some(Seq::<char>::empty()));
            assert(acc@ =~= seq!['['] + Seq::<char>::empty() + seq![']']);
        }
        return Some(acc);
    }
    proof {
        assert(decreases_to!(*items => items@[0]));
    }
    let first = match render_json(&items[0]) {
        Some(h) => h,
        None => {
            proof {
                assert(json_items(items@) is None);
            }
            return None;
        },
    };
    acc.append(first.as_str());
    proof {
        assert(json_of(items@[0]) == Some(first@));
        assert(acc@ =~= seq!['['] + json_prefix_items(items@, 1));
    }
    for j in 1..n
        invariant
            n == items@.len(),
            acc@ =~= seq!['['] + json_prefix_items(items@, j as int),
            forall|k: int| 0 <= k < j ==> json_of(#[trigger] items@[k]) is Some,
        decreases n - j,
    {
        proof {
            assert(decreases_to!(*items => items@[j as int]));
        }
        let piece = match render_json(&items[j]) {
            Some(h) => h,
            None => {
                proof {
                    lemma_json_rest_none(items@, j as int);
                }
                return None;
            },
        };
        push_char(&mut acc, ',');
        acc.append(piece.as_str());
        proof {
            assert(acc@ =~= seq!['['] + json_prefix_items(items@, j + 1));
        }
    }
    push_char(&mut acc, ']');
    proof {
        lemma_json_items_from_prefix(items@, n as int);
        assert(acc@ =~= seq!['['] + json_items(items@)->0 + seq![']']);
    }
    Some(acc)
}

/// Renders a record's JSON text, braces included.
#[verifier::loop_isolation(false)]
#[verifier::rlimit(50)]
fn render_json_record(entries: &Vec<(String, Value)>) -> (r: Option<String>)
    ensures
        match r {
            Some(s) => json_entries(entries@) matches Some(t) && s@ == seq!['{'] + t + seq!['}'],
            None => json_entries(entries@) is None,
        },
    decreases *entries, 0int,
{
    let mut acc = String::new();
    push_char(&mut acc, '{');
    let n = entries.len();
    if n == 0 {
        push_char(&mut acc, '}');
        proof {
            assert(json_entries(entries@) == Some(Seq::<char>::empty()));
            assert(acc@ =~= seq!['{'] + Seq::<char>::empty() + seq!['}']);
        }
        return Some(acc);
    }
    proof {
        assert(decreases_to!(*entries => entries@[0]));
        assert(decreases_to!(entries@[0] => entries@[0].1));
        assert(decreases_to!(*entries => entries@[0].1));
    }
    let first = match render_json(&entries[0].1) {
        Some(h) => h,
        None => {
            proof {
                assert(json_entries(entries@) is None);
            }
            return None;
        },
    };
    push_char(&mut acc, '"');
    append_json_escaped(&mut acc, entries[0].0.as_str());
    push_char(&mut acc, '"');
    push_char(&mut acc, ':');
    acc.append(first.as_str());
    proof {
        assert(json_of(entries@[0].1) == Some(first@));
        assert(acc@ =~= seq!['{'] + json_prefix_entries(entries@, 1));
    }
    for j in 1..n
        invariant
            n == entries@.len(),
            acc@ =~= seq!['{'] + json_prefix_entries(entries@, j as int),
            forall|k: int| 0 <= k < j ==> json_of(#[trigger] entries@[k].1) is Some,
        decreases n - j,
    {
        proof {
            assert(decreases_to!(*entries => entries@[j as int]));
            assert(decreases_to!(entries@[j as int] => entries@[j as int].1));
            assert(decreases_to!(*entries => entries@[j as int].1));
        }
        let piece = match render_json(&entries[j].1) {
            Some(h) => h,
            None => {
                proof {
                    lemma_json_entries_rest_none(entries@, j as int);
                }
                return None;
            },
        };
        push_char(&mut acc, ',');
        push_char(&mut acc, '"');
        append_json_escaped(&mut acc, entries[j].0.as_str());
        push_char(&mut acc, '"');
        push_char(&mut acc, ':');
        acc.append(piece.as_str());
        proof {
            assert(acc@ =~= seq!['{'] + json_prefix_entries(entries@, j + 1));
        }
    }
    push_char(&mut acc, '}');
    proof {
        lemma_json_entries_from_prefix(entries@, n as int);
        assert(acc@ =~= seq!['{'] + json_entries(entries@)->0 + seq!['}']);
    }
    Some(acc)
}

/// The JSON text of the first `j` items, defined where every one of
/// them renders; used only while the exec renderer walks the items.
pub open spec fn json_prefix_items(items: Seq<Value>, j: int) -> Seq<char>
    decreases j,
{
    if j <= 0 || j > items.len() {
        Seq::empty()
    } else if j == 1 {
        json_of(items[0])->0
    } else {
        json_prefix_items(items, j - 1) + seq![','] + json_of(items[j - 1])->0
    }
}

/// The JSON text of the first `j` entries, like [`json_prefix_items`].
pub open spec fn json_prefix_entries(entries: Seq<(String, Value)>, j: int) -> Seq<char>
    decreases j,
{
    if j <= 0 || j > entries.len() {
        Seq::empty()
    } else if j == 1 {
        seq!['"'] + json_escape(entries[0].0@) + seq!['"', ':'] + json_of(entries[0].1)->0
    } else {
        json_prefix_entries(entries, j - 1) + seq![','] + seq!['"'] + json_escape(
            entries[j - 1].0@,
        ) + seq!['"', ':'] + json_of(entries[j - 1].1)->0
    }
}

/// When the item at `j` has no JSON form, neither has the item list.
proof fn lemma_json_rest_none(items: Seq<Value>, j: int)
    requires
        1 <= j < items.len(),
        json_of(items[j]) is None,
    ensures
        json_items(items) is None,
    decreases j,
{
    lemma_json_rest_none_from(items, j, 1);
    assert(json_items(items) is None);
}

proof fn lemma_json_rest_none_from(items: Seq<Value>, j: int, k: int)
    requires
        1 <= k <= j < items.len(),
        json_of(items[j]) is None,
    ensures
        json_rest(items, k) is None,
    decreases j - k,
{
    if k == j {
        assert(json_rest(items, k) is None);
    } else {
        lemma_json_rest_none_from(items, j, k + 1);
    }
}

/// When every item up to `n` (the whole list) renders, the list's JSON
/// text is the prefix text.
proof fn lemma_json_items_from_prefix(items: Seq<Value>, n: int)
    requires
        n == items.len(),
        n > 0,
        forall|k: int| 0 <= k < n ==> json_of(#[trigger] items[k]) is Some,
    ensures
        json_items(items) == Some(json_prefix_items(items, n)),
{
    lemma_json_rest_from_prefix(items, n, 1);
    if n == 1 {
        assert(json_items(items) == Some(json_of(items[0])->0 + Seq::<char>::empty()));
        assert(json_of(items[0])->0 + Seq::<char>::empty() =~= json_prefix_items(items, 1));
    } else {
        assert(json_items(items) matches Some(t) && t == json_of(items[0])->0 + json_rest(
            items,
            1,
        )->0);
        lemma_prefix_shift_items(items);
        assert(json_of(items[0])->0 + json_rest(items, 1)->0 =~= json_prefix_items(items, n));
    }
}

/// From `k` on, the remaining items' JSON text is the whole minus the
/// prefix.
proof fn lemma_json_rest_from_prefix(items: Seq<Value>, n: int, k: int)
    requires
        n == items.len(),
        1 <= k <= n,
        forall|j: int| 0 <= j < n ==> json_of(#[trigger] items[j]) is Some,
    ensures
        json_rest(items, k) is Some,
        json_prefix_items(items, k) + json_rest(items, k)->0 =~= json_prefix_items(items, n),
    decreases n - k,
{
    if k == n {
        assert(json_rest(items, k) == Some(Seq::<char>::empty()));
    } else {
        lemma_json_rest_from_prefix(items, n, k + 1);
        assert(json_rest(items, k) matches Some(t) && t == seq![','] + json_of(items[k])->0
            + json_rest(items, k + 1)->0);
        assert(json_prefix_items(items, k + 1) =~= json_prefix_items(items, k) + seq![',']
            + json_of(items[k])->0);
        assert(json_prefix_items(items, k) + json_rest(items, k)->0 =~= json_prefix_items(
            items,
            k + 1,
        ) + json_rest(items, k + 1)->0);
    }
}

proof fn lemma_prefix_shift_items(items: Seq<Value>)
    requires
        items.len() >= 1,
        forall|j: int| 0 <= j < items.len() ==> json_of(#[trigger] items[j]) is Some,
    ensures
        json_rest(items, 1) is Some,
        json_of(items[0])->0 + json_rest(items, 1)->0 =~= json_prefix_items(
            items,
            items.len() as int,
        ),
{
    let n = items.len() as int;
    lemma_json_rest_from_prefix(items, n, 1);
    assert(json_prefix_items(items, 1) =~= json_of(items[0])->0);
}

/// When the entry at `j` has no JSON form, neither has the entry list.
proof fn lemma_json_entries_rest_none(entries: Seq<(String, Value)>, j: int)
    requires
        1 <= j < entries.len(),
        json_of(entries[j].1) is None,
    ensures
        json_entries(entries) is None,
{
    lemma_json_entries_rest_none_from(entries, j, 1);
}

proof fn lemma_json_entries_rest_none_from(entries: Seq<(String, Value)>, j: int, k: int)
    requires
        1 <= k <= j < entries.len(),
        json_of(entries[j].1) is None,
    ensures
        json_entries_rest(entries, k) is None,
    decreases j - k,
{
    if k == j {
    } else {
        lemma_json_entries_rest_none_from(entries, j, k + 1);
    }
}

/// When every entry renders, the record's JSON text is the prefix text.
proof fn lemma_json_entries_from_prefix(entries: Seq<(String, Value)>, n: int)
    requires
        n == entries.len(),
        n > 0,
        forall|k: int| 0 <= k < n ==> json_of(#[trigger] entries[k].1) is Some,
    ensures
        json_entries(entries) == Some(json_prefix_entries(entries, n)),
{
    lemma_json_entries_rest_from_prefix(entries, n, 1);
    assert(json_entries(entries) matches Some(t) && t == seq!['"'] + json_escape(entries[0].0@)
        + seq!['"', ':'] + json_of(entries[0].1)->0 + json_entries_rest(entries, 1)->0);
    assert(json_prefix_entries(entries, 1) =~= seq!['"'] + json_escape(entries[0].0@) + seq![
        '"', ':'] + json_of(entries[0].1)->0);
    assert(seq!['"'] + json_escape(entries[0].0@) + seq!['"', ':'] + json_of(entries[0].1)->0
        + json_entries_rest(entries, 1)->0 =~= json_prefix_entries(entries, 1)
        + json_entries_rest(entries, 1)->0);
}

proof fn lemma_json_entries_rest_from_prefix(entries: Seq<(String, Value)>, n: int, k: int)
    requires
        n == entries.len(),
        1 <= k <= n,
        forall|j: int| 0 <= j < n ==> json_of(#[trigger] entries[j].1) is Some,
    ensures
        json_entries_rest(entries, k) is Some,
        json_prefix_entries(entries, k) + json_entries_rest(entries, k)->0 =~= json_prefix_entries(
            entries,
            n,
        ),
    decreases n - k,
{
    if k == n {
        assert(json_entries_rest(entries, k) == Some(Seq::<char>::empty()));
    } else {
        lemma_json_entries_rest_from_prefix(entries, n, k + 1);
        assert(json_entries_rest(entries, k) matches Some(t) && t == seq![','] + seq!['"']
            + json_escape(entries[k].0@) + seq!['"', ':'] + json_of(entries[k].1)->0
            + json_entries_rest(entries, k + 1)->0);
        assert(json_prefix_entries(entries, k + 1) =~= json_prefix_entries(entries, k) + seq![',']
            + seq!['"'] + json_escape(entries[k].0@) + seq!['"', ':'] + json_of(entries[k].1)->0);
        assert(json_prefix_entries(entries, k) + json_entries_rest(entries, k)->0
            =~= json_prefix_entries(entries, k + 1) + json_entries_rest(entries, k + 1)->0);
    }
}

} // verus!
