//! A JSON reader for request bodies. The grammar accepted: `null`,
//! `true`, `false`, integers (no fractions or exponents — the value
//! model holds no floating point), strings with the short escapes
//! (`\" \\ \/ \n \r \t \b \f`; no `\u` escapes), arrays and objects,
//! with blanks, tabs and line ends between tokens. Object entries keep
//! their written order; on a repeated key a lookup finds the first.

use vstd::prelude::*;
use crate::text::chars_to_string;
use crate::text::str_to_chars;
use crate::value::Value;

verus! {

/// The mathematical shape of a parsed JSON value.
pub enum JsonV {
    Null,
    Bool(bool),
    Int(int),
    Str(Seq<char>),
    Arr(Seq<JsonV>),
    Obj(Seq<(Seq<char>, JsonV)>),
}

/// The JSON shape of a structured value, when it has one.
pub open spec fn jview(v: Value) -> Option<JsonV>
    decreases v, 0int, 0int,
{
    match v {
        Value::Null => Some(JsonV::Null),
        Value::Bool(b) => Some(JsonV::Bool(b)),
        Value::Int(n) => Some(JsonV::Int(n as int)),
        Value::Str(s) => Some(JsonV::Str(s@)),
        Value::Array(items) => match jview_items(items@) {
            Some(es) => Some(JsonV::Arr(es)),
            None => None,
        },
        Value::Record(entries) => match jview_entries(entries@) {
            Some(es) => Some(JsonV::Obj(es)),
            None => None,
        },
        _ => None,
    }
}

/// The JSON shapes of the items, when every item has one.
pub open spec fn jview_items(items: Seq<Value>) -> Option<Seq<JsonV>>
    decreases items, items.len(), 1int,
{
    if items.len() == 0 {
        Some(Seq::empty())
    } else {
        match (jview(items[0]), jview_items(items.drop_first())) {
            (Some(h), Some(t)) => Some(seq![h] + t),
            _ => None,
        }
    }
}

/// The JSON shapes of the entries, when every value has one.
pub open spec fn jview_entries(entries: Seq<(String, Value)>) -> Option<Seq<(Seq<char>, JsonV)>>
    decreases entries, entries.len(), 1int,
{
    if entries.len() == 0 {
        Some(Seq::empty())
    } else {
        match (jview(entries[0].1), jview_entries(entries.drop_first())) {
            (Some(h), Some(t)) => Some(seq![(entries[0].0@, h)] + t),
            _ => None,
        }
    }
}

/// True of the blanks between JSON tokens.
pub open spec fn is_ws(c: char) -> bool {
    c == ' ' || c == '\t' || c == '\n' || c == '\r'
}

/// The first index at or after `i` holding no blank, or the length.
pub open spec fn skip_ws(s: Seq<char>, i: int) -> int
    decreases s.len() - i,
{
    if i < 0 || i >= s.len() {
        s.len() as int
    } else if is_ws(s[i]) {
        skip_ws(s, i + 1)
    } else {
        i
    }
}

pub proof fn lemma_skip_ws_bounds(s: Seq<char>, i: int)
    requires
        0 <= i <= s.len(),
    ensures
        i <= skip_ws(s, i) <= s.len(),
    decreases s.len() - i,
{
    if i < s.len() && is_ws(s[i]) {
        lemma_skip_ws_bounds(s, i + 1);
    }
}

/// The character a short escape names.
pub open spec fn esc_char(c: char) -> Option<char> {
    if c == '"' {
        Some('"')
    } else if c == '\\' {
        Some('\\')
    } else if c == '/' {
        Some('/')
    } else if c == 'n' {
        Some('\n')
    } else if c == 'r' {
        Some('\r')
    } else if c == 't' {
        Some('\t')
    } else if c == 'b' {
        Some('\u{8}')
    } else if c == 'f' {
        Some('\u{c}')
    } else {
        None
    }
}

/// Reads a string body from after its opening quote to its closing
/// quote: the decoded text and the index after the quote, or nothing
/// when the string never closes or holds an unknown escape.
pub open spec fn scan_string(s: Seq<char>, i: int) -> Option<(Seq<char>, int)>
    decreases s.len() - i,
{
    if i < 0 || i >= s.len() {
        None
    } else if s[i] == '"' {
        Some((Seq::empty(), i + 1))
    } else if s[i] == '\\' {
        if i + 1 >= s.len() {
            None
        } else {
            match esc_char(s[i + 1]) {
                Some(c) => match scan_string(s, i + 2) {
                    Some((t, j)) => Some((seq![c] + t, j)),
                    None => None,
                },
                None => None,
            }
        }
    } else {
        match scan_string(s, i + 1) {
            Some((t, j)) => Some((seq![s[i]] + t, j)),
            None => None,
        }
    }
}

/// True of a decimal digit.
pub open spec fn is_digit(c: char) -> bool {
    '0' <= c && c <= '9'
}

/// The first index at or after `i` holding no digit, or the length.
pub open spec fn scan_digits(s: Seq<char>, i: int) -> int
    decreases s.len() - i,
{
    if i < 0 || i >= s.len() {
        s.len() as int
    } else if is_digit(s[i]) {
        scan_digits(s, i + 1)
    } else {
        i
    }
}

pub proof fn lemma_scan_digits_bounds(s: Seq<char>, i: int)
    requires
        0 <= i <= s.len(),
    ensures
        i <= scan_digits(s, i) <= s.len(),
        forall|k: int| i <= k < scan_digits(s, i) ==> is_digit(s[k]),
    decreases s.len() - i,
{
    if i < s.len() && is_digit(s[i]) {
        lemma_scan_digits_bounds(s, i + 1);
    }
}

/// The value of the digits `s[i..j)`.
pub open spec fn digits_val(s: Seq<char>, i: int, j: int) -> int
    decreases j - i,
{
    if j <= i {
        0
    } else {
        digits_val(s, i, j - 1) * 10 + (s[j - 1] as u32 - 48)
    }
}

pub proof fn lemma_digits_val_nonneg(s: Seq<char>, i: int, j: int)
    requires
        forall|k: int| i <= k < j ==> is_digit(s[k]),
    ensures
        digits_val(s, i, j) >= 0,
    decreases j - i,
{
    if j > i {
        lemma_digits_val_nonneg(s, i, j - 1);
        assert(digits_val(s, i, j - 1) * 10 >= 0) by (nonlinear_arith)
            requires
                digits_val(s, i, j - 1) >= 0,
        ;
    }
}

/// Reads an integer at `i`: an optional minus sign and at least one
/// digit whose value fits the value model's integer width.
pub open spec fn parse_number(s: Seq<char>, i: int) -> Option<(int, int)> {
    let neg = 0 <= i < s.len() && s[i] == '-';
    let start = if neg {
        i + 1
    } else {
        i
    };
    let end = scan_digits(s, start);
    if end <= start {
        None
    } else {
        let mag = digits_val(s, start, end);
        if mag > i128::MAX as int {
            None
        } else {
            Some(
                (
                    if neg {
                        -mag
                    } else {
                        mag
                    },
                    end,
                ),
            )
        }
    }
}

/// True when `lit` stands verbatim at `i`.
pub open spec fn match_lit(s: Seq<char>, i: int, lit: Seq<char>) -> bool {
    0 <= i && i + lit.len() <= s.len() && s.subrange(i, i + lit.len() as int) == lit
}

/// Reads one JSON value at `i` (no leading blanks): the parsed shape
/// and the index after it.
pub open spec fn parse_value_spec(s: Seq<char>, i: int) -> Option<(JsonV, int)>
    decreases s.len() - i, 0int,
{
    if i < 0 || i >= s.len() {
        None
    } else if s[i] == 'n' {
        if match_lit(s, i, seq!['n', 'u', 'l', 'l']) {
            Some((JsonV::Null, i + 4))
        } else {
            None
        }
    } else if s[i] == 't' {
        if match_lit(s, i, seq!['t', 'r', 'u', 'e']) {
            Some((JsonV::Bool(true), i + 4))
        } else {
            None
        }
    } else if s[i] == 'f' {
        if match_lit(s, i, seq!['f', 'a', 'l', 's', 'e']) {
            Some((JsonV::Bool(false), i + 5))
        } else {
            None
        }
    } else if s[i] == '"' {
        match scan_string(s, i + 1) {
            Some((t, j)) => Some((JsonV::Str(t), j)),
            None => None,
        }
    } else if s[i] == '[' {
        match parse_elems_spec(s, i + 1, true) {
            Some((es, j)) => Some((JsonV::Arr(es), j)),
            None => None,
        }
    } else if s[i] == '{' {
        match parse_members_spec(s, i + 1, true) {
            Some((es, j)) => Some((JsonV::Obj(es), j)),
            None => None,
        }
    } else if s[i] == '-' || is_digit(s[i]) {
        match parse_number(s, i) {
            Some((v, j)) => Some((JsonV::Int(v), j)),
            None => None,
        }
    } else {
        None
    }
}

/// The index the list parsers resume at: `j` itself in every real
/// parse, clamped into range so that the recursion visibly advances.
pub open spec fn next_idx(s: Seq<char>, i: int, j: int) -> int {
    if j <= i || j > s.len() {
        i + 1
    } else {
        j
    }
}

/// Reads the elements after `[` (or after a comma when `first` is
/// false) up to and including `]`.
pub open spec fn parse_elems_spec(s: Seq<char>, i: int, first: bool) -> Option<(Seq<JsonV>, int)>
    decreases s.len() - i, 1int,
    via parse_elems_decreases
{
    if i < 0 {
        None
    } else {
        let j = skip_ws(s, i);
        if j >= s.len() {
            None
        } else if first && s[j] == ']' {
            Some((Seq::empty(), j + 1))
        } else {
            match parse_value_spec(s, j) {
                None => None,
                Some((v, k0)) => {
                    let m = skip_ws(s, k0);
                    if m < s.len() && s[m] == ',' {
                        match parse_elems_spec(s, next_idx(s, i, m + 1), false) {
                            Some((es, jj)) => Some((seq![v] + es, jj)),
                            None => None,
                        }
                    } else if m < s.len() && s[m] == ']' {
                        Some((seq![v], m + 1))
                    } else {
                        None
                    }
                },
            }
        }
    }
}

#[via_fn]
proof fn parse_elems_decreases(s: Seq<char>, i: int, first: bool) {
    if i >= 0 && i <= s.len() {
        lemma_skip_ws_bounds(s, i);
    }
    if i > s.len() {
        assert(skip_ws(s, i) == s.len());
    }
}

/// Reads the members after `{` (or after a comma when `first` is
/// false) up to and including `}`.
pub open spec fn parse_members_spec(s: Seq<char>, i: int, first: bool) -> Option<
    (Seq<(Seq<char>, JsonV)>, int),
>
    decreases s.len() - i, 1int,
    via parse_members_decreases
{
    if i < 0 {
        None
    } else {
        let j = skip_ws(s, i);
        if j >= s.len() {
            None
        } else if first && s[j] == '}' {
            Some((Seq::empty(), j + 1))
        } else if s[j] != '"' {
            None
        } else {
            match scan_string(s, j + 1) {
                None => None,
                Some((key, k0)) => {
                    let c = skip_ws(s, k0);
                    if !(c < s.len() && s[c] == ':') {
                        None
                    } else {
                        let vstart = next_idx(s, j, skip_ws(s, c + 1));
                        match parse_value_spec(s, vstart) {
                            None => None,
                            Some((v, e0)) => {
                                let m = skip_ws(s, e0);
                                if m < s.len() && s[m] == ',' {
                                    match parse_members_spec(s, next_idx(s, i, m + 1), false) {
                                        Some((es, jj)) => Some((seq![(key, v)] + es, jj)),
                                        None => None,
                                    }
                                } else if m < s.len() && s[m] == '}' {
                                    Some((seq![(key, v)], m + 1))
                                } else {
                                    None
                                }
                            },
                        }
                    }
                },
            }
        }
    }
}

#[via_fn]
proof fn parse_members_decreases(s: Seq<char>, i: int, first: bool) {
    if i >= 0 && i <= s.len() {
        lemma_skip_ws_bounds(s, i);
    }
    if i > s.len() {
        assert(skip_ws(s, i) == s.len());
    }
}

/// What a whole body parses to: one JSON value with nothing but blanks
/// around it.
pub open spec fn json_parse_spec(s: Seq<char>) -> Option<JsonV> {
    match parse_value_spec(s, skip_ws(s, 0)) {
        Some((v, j)) => if skip_ws(s, j) == s.len() {
            Some(v)
        } else {
            None
        },
        None => None,
    }
}

/// Moves past the blanks between tokens.
fn skip_blanks(cs: &Vec<char>, i: usize) -> (r: usize)
    requires
        i as int <= cs@.len(),
    ensures
        r as int == skip_ws(cs@, i as int),
        i <= r,
        r as int <= cs@.len(),
{
    let n = cs.len();
    let mut j = i;
    loop
        invariant
            i <= j <= n,
            n == cs@.len(),
            skip_ws(cs@, i as int) == skip_ws(cs@, j as int),
        ensures
            i <= j <= n,
            skip_ws(cs@, i as int) == j as int,
        decreases n - j,
    {
        if j == n {
            break;
        }
        let c = cs[j];
        if !(c == ' ' || c == '\t' || c == '\n' || c == '\r') {
            break;
        }
        j = j + 1;
    }
    j
}

/// Reads a string body, mirroring [`scan_string`].
fn scan_str(cs: &Vec<char>, i: usize) -> (r: Option<(Vec<char>, usize)>)
    requires
        i as int <= cs@.len(),
    ensures
        match r {
            Some(p) => scan_string(cs@, i as int) == Some((p.0@, p.1 as int)) && i < p.1 && p.1
                as int <= cs@.len(),
            None => scan_string(cs@, i as int) is None,
        },
    decreases cs@.len() - i,
{
    let n = cs.len();
    if i >= n {
        return None;
    }
    let c = cs[i];
    if c == '"' {
        let t: Vec<char> = Vec::new();
        proof {
            assert(t@ =~= Seq::<char>::empty());
        }
        return Some((t, i + 1));
    }
    if c == '\\' {
        if i + 1 >= n {
            return None;
        }
        let e = cs[i + 1];
        let dec: char = if e == '"' {
            '"'
        } else if e == '\\' {
            '\\'
        } else if e == '/' {
            '/'
        } else if e == 'n' {
            '\n'
        } else if e == 'r' {
            '\r'
        } else if e == 't' {
            '\t'
        } else if e == 'b' {
            '\u{8}'
        } else if e == 'f' {
            '\u{c}'
        } else {
            return None;
        };
        proof {
            assert(esc_char(cs@[i + 1]) == Some(dec));
        }
        match scan_str(cs, i + 2) {
            Some((mut t, j)) => {
                let ghost t_before = t@;
                t.insert(0, dec);
                proof {
                    assert(t@ =~= seq![dec] + t_before);
                }
                Some((t, j))
            },
            None => None,
        }
    } else {
        match scan_str(cs, i + 1) {
            Some((mut t, j)) => {
                let ghost t_before = t@;
                t.insert(0, c);
                proof {
                    assert(t@ =~= seq![c] + t_before);
                }
                Some((t, j))
            },
            None => None,
        }
    }
}

/// Reads an integer, mirroring [`parse_number`].
fn parse_num(cs: &Vec<char>, i: usize) -> (r: Option<(i128, usize)>)
    requires
        (i as int) < cs@.len(),
    ensures
        match r {
            Some(p) => parse_number(cs@, i as int) == Some((p.0 as int, p.1 as int)) && i < p.1
                && p.1 as int <= cs@.len(),
            None => parse_number(cs@, i as int) is None,
        },
{
    let n = cs.len();
    let neg = cs[i] == '-';
    let start = if neg {
        i + 1
    } else {
        i
    };
    let mut j = start;
    loop
        invariant
            start <= j <= n,
            n == cs@.len(),
            start <= n,
            scan_digits(cs@, start as int) == scan_digits(cs@, j as int),
        ensures
            start <= j <= n,
            scan_digits(cs@, start as int) == j as int,
        decreases n - j,
    {
        if j == n {
            break;
        }
        let c = cs[j];
        if !('0' <= c && c <= '9') {
            break;
        }
        j = j + 1;
    }
    if j == start {
        return None;
    }
    proof {
        lemma_scan_digits_bounds(cs@, start as int);
    }
    let m: u128 = i128::MAX as u128;
    let mut acc: u128 = 0;
    let mut over = false;
    let mut k = start;
    while k < j
        invariant
            start <= k <= j <= n,
            n == cs@.len(),
            j as int == scan_digits(cs@, start as int),
            forall|q: int| start <= q < j ==> is_digit(cs@[q]),
            m == i128::MAX as u128,
            !over ==> acc as int == digits_val(cs@, start as int, k as int) && acc <= m,
            over ==> digits_val(cs@, start as int, k as int) > m as int,
        decreases j - k,
    {
        let c = cs[k];
        proof {
            assert(is_digit(cs@[k as int]));
            assert('0' as u32 == 48);
            assert('9' as u32 == 57);
        }
        let code: u32 = c as u32;
        let d: u128 = (code - 48) as u128;
        let ghost prev = digits_val(cs@, start as int, k as int);
        proof {
            assert(digits_val(cs@, start as int, k + 1) == prev * 10 + (cs@[k as int] as u32
                - 48));
        }
        if over {
            proof {
                lemma_digits_val_nonneg(cs@, start as int, k as int);
                assert(prev * 10 + (cs@[k as int] as u32 - 48) > m as int) by (nonlinear_arith)
                    requires
                        prev > m as int,
                        m as int >= 0,
                        cs@[k as int] as u32 >= 48,
                ;
            }
        } else if acc > (m - d) / 10 {
            proof {
                assert(acc as int * 10 + d as int > m as int) by (nonlinear_arith)
                    requires
                        acc as int > ((m - d) as int) / 10,
                        0 <= d as int <= m as int,
                ;
            }
            over = true;
        } else {
            proof {
                assert(acc as int * 10 + d as int <= m as int) by (nonlinear_arith)
                    requires
                        acc as int <= ((m - d) as int) / 10,
                        0 <= d as int <= m as int,
                ;
            }
            acc = acc * 10 + d;
        }
        k = k + 1;
    }
    if over {
        return None;
    }
    proof {
        assert(acc as int == digits_val(cs@, start as int, j as int));
    }
    let mag = acc as i128;
    if neg {
        Some((-mag, j))
    } else {
        Some((mag, j))
    }
}

/// True when the four characters stand verbatim at `i`.
fn lit4(cs: &Vec<char>, i: usize, a: char, b: char, c: char, d: char) -> (r: bool)
    requires
        i as int <= cs@.len(),
    ensures
        r == match_lit(cs@, i as int, seq![a, b, c, d]),
{
    let n = cs.len();
    let ok = n - i >= 4 && cs[i] == a && cs[i + 1] == b && cs[i + 2] == c && cs[i + 3] == d;
    proof {
        if cs@.len() - i >= 4 {
            let sub = cs@.subrange(i as int, i + 4);
            assert(sub[0] == cs@[i as int]);
            assert(sub[1] == cs@[i + 1]);
            assert(sub[2] == cs@[i + 2]);
            assert(sub[3] == cs@[i + 3]);
            if ok {
                assert(sub =~= seq![a, b, c, d]);
            } else {
                if sub == seq![a, b, c, d] {
                    assert(false);
                }
            }
        }
    }
    ok
}

/// True when the five characters stand verbatim at `i`.
fn lit5(cs: &Vec<char>, i: usize, a: char, b: char, c: char, d: char, e: char) -> (r: bool)
    requires
        i as int <= cs@.len(),
    ensures
        r == match_lit(cs@, i as int, seq![a, b, c, d, e]),
{
    let n = cs.len();
    let ok = n - i >= 5 && cs[i] == a && cs[i + 1] == b && cs[i + 2] == c && cs[i + 3] == d && cs[i
        + 4] == e;
    proof {
        if cs@.len() - i >= 5 {
            let sub = cs@.subrange(i as int, i + 5);
            assert(sub[0] == cs@[i as int]);
            assert(sub[1] == cs@[i + 1]);
            assert(sub[2] == cs@[i + 2]);
            assert(sub[3] == cs@[i + 3]);
            assert(sub[4] == cs@[i + 4]);
            if ok {
                assert(sub =~= seq![a, b, c, d, e]);
            } else {
                if sub == seq![a, b, c, d, e] {
                    assert(false);
                }
            }
        }
    }
    ok
}

/// Reads one JSON value, mirroring [`parse_value_spec`].
fn p_value(cs: &Vec<char>, i: usize) -> (r: Option<(Value, usize)>)
    requires
        i as int <= cs@.len(),
    ensures
        match r {
            Some(p) => parse_value_spec(cs@, i as int) matches Some(sp) && jview(p.0) == Some(sp.0)
                && p.1 as int == sp.1 && i < p.1 && p.1 as int <= cs@.len(),
            None => parse_value_spec(cs@, i as int) is None,
        },
    decreases cs@.len() - i, 0int,
{
    let n = cs.len();
    if i >= n {
        return None;
    }
    let c = cs[i];
    if c == 'n' {
        if lit4(cs, i, 'n', 'u', 'l', 'l') {
            Some((Value::Null, i + 4))
        } else {
            None
        }
    } else if c == 't' {
        if lit4(cs, i, 't', 'r', 'u', 'e') {
            Some((Value::Bool(true), i + 4))
        } else {
            None
        }
    } else if c == 'f' {
        if lit5(cs, i, 'f', 'a', 'l', 's', 'e') {
            Some((Value::Bool(false), i + 5))
        } else {
            None
        }
    } else if c == '"' {
        match scan_str(cs, i + 1) {
            Some((t, j)) => {
                let text = chars_to_string(&t);
                Some((Value::Str(text), j))
            },
            None => None,
        }
    } else if c == '[' {
        match p_elems(cs, i + 1, true) {
            Some((items, j)) => Some((Value::Array(items), j)),
            None => None,
        }
    } else if c == '{' {
        match p_members(cs, i + 1, true) {
            Some((entries, j)) => Some((Value::Record(entries), j)),
            None => None,
        }
    } else if c == '-' || ('0' <= c && c <= '9') {
        match parse_num(cs, i) {
            Some((v, j)) => Some((Value::Int(v), j)),
            None => None,
        }
    } else {
        None
    }
}

/// Reads the elements of an array, mirroring [`parse_elems_spec`].
fn p_elems(cs: &Vec<char>, i: usize, first: bool) -> (r: Option<(Vec<Value>, usize)>)
    requires
        i as int <= cs@.len(),
    ensures
        match r {
            Some(p) => parse_elems_spec(cs@, i as int, first) matches Some(sp) && jview_items(p.0@)
                == Some(sp.0) && p.1 as int == sp.1 && i < p.1 && p.1 as int <= cs@.len(),
            None => parse_elems_spec(cs@, i as int, first) is None,
        },
    decreases cs@.len() - i, 1int,
{
    let n = cs.len();
    let j = skip_blanks(cs, i);
    if j >= n {
        return None;
    }
    if first && cs[j] == ']' {
        let vs: Vec<Value> = Vec::new();
        proof {
            assert(jview_items(vs@) == Some(Seq::<JsonV>::empty()));
        }
        return Some((vs, j + 1));
    }
    let (v, k0) = match p_value(cs, j) {
        Some(p) => p,
        None => {
            return None;
        },
    };
    let ghost jv = jview(v)->0;
    let m = skip_blanks(cs, k0);
    if m < n && cs[m] == ',' {
        proof {
            assert(next_idx(cs@, i as int, m + 1) == m + 1);
        }
        match p_elems(cs, m + 1, false) {
            Some((mut vs, jj)) => {
                let ghost vs_before = vs@;
                vs.insert(0, v);
                proof {
                    assert(vs@ =~= seq![vs@[0]] + vs_before);
                    assert(vs@.drop_first() =~= vs_before);
                    assert(jview_items(vs@) matches Some(es) && es =~= seq![jv] + jview_items(
                        vs_before,
                    )->0);
                }
                Some((vs, jj))
            },
            None => None,
        }
    } else if m < n && cs[m] == ']' {
        let mut vs: Vec<Value> = Vec::new();
        vs.push(v);
        proof {
            assert(vs@.drop_first() =~= Seq::<Value>::empty());
            assert(vs@[0] == v);
            assert(jview(vs@[0]) == Some(jv));
            assert(jview_items(vs@.drop_first()) == Some(Seq::<JsonV>::empty()));
            assert(jview_items(vs@) matches Some(es) && es =~= seq![jv]);
        }
        Some((vs, m + 1))
    } else {
        None
    }
}

/// Reads the members of an object, mirroring [`parse_members_spec`].
fn p_members(cs: &Vec<char>, i: usize, first: bool) -> (r: Option<
    (Vec<(String, Value)>, usize),
>)
    requires
        i as int <= cs@.len(),
    ensures
        match r {
            Some(p) => parse_members_spec(cs@, i as int, first) matches Some(sp) && jview_entries(
                p.0@,
            ) == Some(sp.0) && p.1 as int == sp.1 && i < p.1 && p.1 as int <= cs@.len(),
            None => parse_members_spec(cs@, i as int, first) is None,
        },
    decreases cs@.len() - i, 1int,
{
    let n = cs.len();
    let j = skip_blanks(cs, i);
    if j >= n {
        return None;
    }
    if first && cs[j] == '}' {
        let vs: Vec<(String, Value)> = Vec::new();
        proof {
            assert(jview_entries(vs@) == Some(Seq::<(Seq<char>, JsonV)>::empty()));
        }
        return Some((vs, j + 1));
    }
    if cs[j] != '"' {
        return None;
    }
    let (key_chars, k0) = match scan_str(cs, j + 1) {
        Some(p) => p,
        None => {
            return None;
        },
    };
    let key = chars_to_string(&key_chars);
    let c = skip_blanks(cs, k0);
    if !(c < n && cs[c] == ':') {
        return None;
    }
    let vstart0 = skip_blanks(cs, c + 1);
    proof {
        assert(next_idx(cs@, j as int, vstart0 as int) == vstart0 as int);
    }
    let (v, e0) = match p_value(cs, vstart0) {
        Some(p) => p,
        None => {
            return None;
        },
    };
    let ghost jv = jview(v)->0;
    let ghost keyv = key@;
    let m = skip_blanks(cs, e0);
    if m < n && cs[m] == ',' {
        proof {
            assert(next_idx(cs@, i as int, m + 1) == m + 1);
        }
        match p_members(cs, m + 1, false) {
            Some((mut vs, jj)) => {
                let ghost vs_before = vs@;
                vs.insert(0, (key, v));
                proof {
                    assert(vs@ =~= seq![vs@[0]] + vs_before);
                    assert(vs@.drop_first() =~= vs_before);
                    assert(jview_entries(vs@) matches Some(es) && es =~= seq![(keyv, jv)]
                        + jview_entries(vs_before)->0);
                }
                Some((vs, jj))
            },
            None => None,
        }
    } else if m < n && cs[m] == '}' {
        let mut vs: Vec<(String, Value)> = Vec::new();
        vs.push((key, v));
        proof {
            assert(vs@.drop_first() =~= Seq::<(String, Value)>::empty());
            assert(vs@[0].1 == v && vs@[0].0@ == keyv);
            assert(jview(vs@[0].1) == Some(jv));
            assert(jview_entries(vs@.drop_first()) == Some(Seq::<(Seq<char>, JsonV)>::empty()));
            assert(jview_entries(vs@) matches Some(es) && es =~= seq![(keyv, jv)]);
        }
        Some((vs, m + 1))
    } else {
        None
    }
}

/// Parses a whole JSON body into a structured value.
pub fn parse_json_text(s: &str) -> (r: Option<Value>)
    ensures
        match r {
            Some(v) => json_parse_spec(s@) == jview(v) && jview(v) is Some,
            None => json_parse_spec(s@) is None,
        },
{
    let cs = str_to_chars(s);
    let start = skip_blanks(&cs, 0);
    match p_value(&cs, start) {
        Some((v, j)) => {
            let e = skip_blanks(&cs, j);
            if e == cs.len() {
                Some(v)
            } else {
                None
            }
        },
        None => None,
    }
}

} // verus!
