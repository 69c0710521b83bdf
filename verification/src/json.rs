//! JSON values and their canonical text: object keys sorted by code point,
//! no insignificant whitespace, integers only.
use vstd::prelude::*;
use crate::text::{chars_of, push_char, push_str, nat_decimal, int_decimal, u64_decimal, i64_decimal};
use crate::app_error::AppError;

verus! {

/// A JSON number as the library holds it: integers are kept exactly and a
/// floating-point value is only marked, since canonical JSON refuses it.
#[derive(Debug, Clone, Copy)]
pub enum JsonNumber {
    PosInt(u64),
    NegInt(i64),
    Float,
}

/// A JSON value. An object keeps its entries in the order given; where a key
/// repeats, the first entry with that key is the one that counts.
#[derive(Debug)]
pub enum JsonValue {
    Null,
    Bool(bool),
    Number(JsonNumber),
    Str(String),
    Array(Vec<JsonValue>),
    Object(Vec<(String, JsonValue)>),
}

/// `{}`.
pub open spec fn is_empty_object(v: JsonValue) -> bool {
    v matches JsonValue::Object(es) && es@.len() == 0
}

// ---------------------------------------------------------------------------
// Lexicographic order on character sequences (the order of `String`'s `Ord`)
// ---------------------------------------------------------------------------

/// `a` sorts strictly before `b`, comparing code points left to right.
pub open spec fn chars_lt(a: Seq<char>, b: Seq<char>) -> bool
    decreases a.len(),
{
    if b.len() == 0 {
        false
    } else if a.len() == 0 {
        true
    } else if a[0] != b[0] {
        a[0] < b[0]
    } else {
        chars_lt(a.drop_first(), b.drop_first())
    }
}

pub proof fn lemma_chars_lt_irreflexive(a: Seq<char>)
    ensures
        !chars_lt(a, a),
    decreases a.len(),
{
    if a.len() > 0 {
        lemma_chars_lt_irreflexive(a.drop_first());
    }
}

pub proof fn lemma_chars_lt_trans(a: Seq<char>, b: Seq<char>, c: Seq<char>)
    requires
        chars_lt(a, b),
        chars_lt(b, c),
    ensures
        chars_lt(a, c),
    decreases a.len(),
{
    if a.len() > 0 && b.len() > 0 && c.len() > 0 {
        if a[0] == b[0] && b[0] == c[0] {
            lemma_chars_lt_trans(a.drop_first(), b.drop_first(), c.drop_first());
        }
    }
}

pub proof fn lemma_chars_lt_total(a: Seq<char>, b: Seq<char>)
    ensures
        a == b || chars_lt(a, b) || chars_lt(b, a),
    decreases a.len(),
{
    if a.len() > 0 && b.len() > 0 {
        if a[0] == b[0] {
            lemma_chars_lt_total(a.drop_first(), b.drop_first());
            if a.drop_first() == b.drop_first() {
                assert(a =~= seq![a[0]] + a.drop_first());
                assert(b =~= seq![b[0]] + b.drop_first());
            }
        }
    } else if a.len() == 0 && b.len() == 0 {
        assert(a =~= b);
    }
}

pub proof fn lemma_chars_lt_asym(a: Seq<char>, b: Seq<char>)
    requires
        chars_lt(a, b),
    ensures
        !chars_lt(b, a),
        a != b,
{
    lemma_chars_lt_irreflexive(a);
    if chars_lt(b, a) {
        lemma_chars_lt_trans(a, b, a);
    }
}

/// Whether `a` sorts strictly before `b`.
pub fn chars_less(a: &Vec<char>, b: &Vec<char>) -> (r: bool)
    ensures
        r == chars_lt(a@, b@),
{
    let mut i: usize = 0;
    assert(a@.skip(0) =~= a@);
    assert(b@.skip(0) =~= b@);
    while i < a.len() && i < b.len() && a[i] == b[i]
        invariant
            i <= a@.len(),
            i <= b@.len(),
            chars_lt(a@, b@) == chars_lt(a@.skip(i as int), b@.skip(i as int)),
        decreases a.len() - i,
    {
        assert(a@.skip(i as int).drop_first() =~= a@.skip(i + 1));
        assert(b@.skip(i as int).drop_first() =~= b@.skip(i + 1));
        i = i + 1;
    }
    if i == b.len() {
        false
    } else if i == a.len() {
        true
    } else {
        assert(a@.skip(i as int)[0] == a@[i as int]);
        assert(b@.skip(i as int)[0] == b@[i as int]);
        a[i] < b[i]
    }
}

/// Whether two character vectors are equal.
pub fn chars_equal(a: &Vec<char>, b: &Vec<char>) -> (r: bool)
    ensures
        r == (a@ == b@),
{
    if a.len() != b.len() {
        return false;
    }
    let mut i: usize = 0;
    while i < a.len()
        invariant
            a@.len() == b@.len(),
            i <= a@.len(),
            forall|j: int| 0 <= j < i ==> a@[j] == b@[j],
        decreases a.len() - i,
    {
        if a[i] != b[i] {
            return false;
        }
        i = i + 1;
    }
    assert(a@ =~= b@);
    true
}


/// A scalar JSON value, with its text as a character sequence.
pub enum JAtom {
    Null,
    Bool(bool),
    Int(int),
    Float,
    Str(Seq<char>),
}

/// The scalar a value is, where it is one.
pub open spec fn atom_of(v: JsonValue) -> Option<JAtom> {
    match v {
        JsonValue::Null => Some(JAtom::Null),
        JsonValue::Bool(b) => Some(JAtom::Bool(b)),
        JsonValue::Number(n) => match n {
            JsonNumber::PosInt(u) => Some(JAtom::Int(u as int)),
            JsonNumber::NegInt(i) => Some(JAtom::Int(i as int)),
            JsonNumber::Float => Some(JAtom::Float),
        },
        JsonValue::Str(s) => Some(JAtom::Str(s@)),
        _ => None,
    }
}

/// The entries of an object whose values are all scalars, in order.
pub open spec fn flat_obj(v: JsonValue) -> Option<Seq<(Seq<char>, JAtom)>> {
    match v {
        JsonValue::Object(es) => if forall|i: int| 0 <= i < es@.len() ==> (#[trigger] atom_of(es@[i].1)) is Some {
            Some(Seq::new(es@.len(), |i: int| (es@[i].0@, atom_of(es@[i].1)->Some_0)))
        } else {
            None
        },
        _ => None,
    }
}

/// Orders two strings: -1, 0 or 1 as `a` sorts before, equal to, or after `b`.
pub fn str_order(a: &str, b: &str) -> (r: i8)
    ensures
        r == -1 <==> chars_lt(a@, b@),
        r == 0 <==> a@ == b@,
        r == 1 <==> chars_lt(b@, a@),
        r == -1 || r == 0 || r == 1,
{
    let x = chars_of(a);
    let y = chars_of(b);
    proof {
        lemma_chars_lt_total(a@, b@);
        lemma_chars_lt_irreflexive(a@);
        if chars_lt(a@, b@) {
            lemma_chars_lt_asym(a@, b@);
        }
        if chars_lt(b@, a@) {
            lemma_chars_lt_asym(b@, a@);
        }
    }
    if chars_less(&x, &y) {
        -1
    } else if chars_less(&y, &x) {
        1
    } else {
        0
    }
}

/// The index of the first entry with key `k`, or the number of entries.
pub open spec fn find_key(es: Seq<(String, JsonValue)>, k: Seq<char>) -> int
    decreases es.len(),
{
    if es.len() == 0 {
        0
    } else if es[0].0@ == k {
        0
    } else {
        1 + find_key(es.drop_first(), k)
    }
}

pub proof fn lemma_find_key(es: Seq<(String, JsonValue)>, k: Seq<char>, i: int)
    requires
        0 <= i <= es.len(),
        forall|j: int| 0 <= j < i ==> (#[trigger] es[j]).0@ != k,
        i == es.len() || es[i].0@ == k,
    ensures
        find_key(es, k) == i,
    decreases i,
{
    if i > 0 {
        assert forall|j: int| 0 <= j < i - 1 implies (#[trigger] es.drop_first()[j]).0@ != k by {
            assert(es.drop_first()[j] == es[j + 1]);
        }
        lemma_find_key(es.drop_first(), k, i - 1);
    }
}

/// The value of the first entry with key `k`.
pub open spec fn entry_value(es: Seq<(String, JsonValue)>, k: Seq<char>) -> Option<JsonValue> {
    let i = find_key(es, k);
    if 0 <= i < es.len() {
        Some(es[i].1)
    } else {
        None
    }
}

/// The entries of an object, or none.
pub open spec fn obj_entries(v: JsonValue) -> Seq<(String, JsonValue)> {
    match v {
        JsonValue::Object(es) => es@,
        _ => Seq::empty(),
    }
}

/// The items of an array, or none.
pub open spec fn arr_items(v: JsonValue) -> Seq<JsonValue> {
    match v {
        JsonValue::Array(items) => items@,
        _ => Seq::empty(),
    }
}

/// A sequence of keys in strictly increasing order.
pub open spec fn strictly_sorted(ks: Seq<Seq<char>>) -> bool {
    forall|p: int, q: int| 0 <= p < q < ks.len() ==> chars_lt(#[trigger] ks[p], #[trigger] ks[q])
}

/// Two strictly sorted key sequences holding the same keys are equal.
pub proof fn lemma_strictly_sorted_unique(x: Seq<Seq<char>>, y: Seq<Seq<char>>)
    requires
        strictly_sorted(x),
        strictly_sorted(y),
        forall|k: Seq<char>| x.contains(k) <==> y.contains(k),
    ensures
        x == y,
    decreases x.len(),
{
    if x.len() == 0 {
        if y.len() > 0 {
            assert(y.contains(y[0]));
        }
        assert(x =~= y);
    } else {
        assert(x.contains(x[0]));
        let j = choose|j: int| 0 <= j < y.len() && y[j] == x[0];
        assert(y.contains(y[0]));
        let i = choose|i: int| 0 <= i < x.len() && x[i] == y[0];
        if j > 0 {
            assert(chars_lt(y[0], y[j]));
            if i > 0 {
                assert(chars_lt(x[0], x[i]));
                lemma_chars_lt_asym(y[0], x[0]);
            } else {
                lemma_chars_lt_irreflexive(y[0]);
            }
        }
        assert(y[0] == x[0]);
        let x1 = x.drop_first();
        let y1 = y.drop_first();
        assert forall|k: Seq<char>| x1.contains(k) <==> y1.contains(k) by {
            if x1.contains(k) {
                let a = choose|a: int| 0 <= a < x1.len() && x1[a] == k;
                assert(x.contains(k));
                let b = choose|b: int| 0 <= b < y.len() && y[b] == k;
                assert(chars_lt(x[0], x[a + 1]));
                lemma_chars_lt_irreflexive(k);
                if b == 0 {
                    assert(false);
                }
                assert(y1[b - 1] == k);
            }
            if y1.contains(k) {
                let a = choose|a: int| 0 <= a < y1.len() && y1[a] == k;
                assert(y.contains(k));
                let b = choose|b: int| 0 <= b < x.len() && x[b] == k;
                assert(chars_lt(y[0], y[a + 1]));
                lemma_chars_lt_irreflexive(k);
                if b == 0 {
                    assert(false);
                }
                assert(x1[b - 1] == k);
            }
        }
        lemma_strictly_sorted_unique(x1, y1);
        assert(x =~= seq![x[0]] + x1);
        assert(y =~= seq![y[0]] + y1);
    }
}

// ---------------------------------------------------------------------------
// String escaping (the escaping `serde_json` applies to a string)
// ---------------------------------------------------------------------------

pub open spec fn hex_digit_lower(d: nat) -> char {
    if d < 10 {
        ((d + 48) as u32) as char
    } else {
        ((d + 87) as u32) as char
    }
}

/// How one character is written inside a JSON string.
pub open spec fn escape_char(c: char) -> Seq<char> {
    if c == '"' {
        seq!['\\', '"']
    } else if c == '\\' {
        seq!['\\', '\\']
    } else if c == '\u{8}' {
        seq!['\\', 'b']
    } else if c == '\u{c}' {
        seq!['\\', 'f']
    } else if c == '\n' {
        seq!['\\', 'n']
    } else if c == '\r' {
        seq!['\\', 'r']
    } else if c == '\t' {
        seq!['\\', 't']
    } else if (c as u32) < 0x20 {
        seq![
            '\\',
            'u',
            '0',
            '0',
            hex_digit_lower(((c as u32) / 16) as nat),
            hex_digit_lower(((c as u32) % 16) as nat),
        ]
    } else {
        seq![c]
    }
}

/// The escaped body of a JSON string.
pub open spec fn escape(s: Seq<char>) -> Seq<char>
    decreases s.len(),
{
    if s.len() == 0 {
        Seq::empty()
    } else {
        escape(s.drop_last()) + escape_char(s.last())
    }
}

/// A string written as a JSON string literal.
pub open spec fn quote(s: Seq<char>) -> Seq<char> {
    seq!['"'] + escape(s) + seq!['"']
}

fn hex_lower_char(d: u32) -> (c: char)
    requires
        d < 16,
    ensures
        c == hex_digit_lower(d as nat),
{
    if d < 10 {
        ((d as u8) + 48) as char
    } else {
        ((d as u8) + 87) as char
    }
}

fn push_escaped_char(out: &mut String, c: char)
    ensures
        final(out)@ == old(out)@ + escape_char(c),
{
    let ghost start = out@;
    if c == '"' {
        push_char(out, '\\');
        push_char(out, '"');
    } else if c == '\\' {
        push_char(out, '\\');
        push_char(out, '\\');
    } else if c == '\u{8}' {
        push_char(out, '\\');
        push_char(out, 'b');
    } else if c == '\u{c}' {
        push_char(out, '\\');
        push_char(out, 'f');
    } else if c == '\n' {
        push_char(out, '\\');
        push_char(out, 'n');
    } else if c == '\r' {
        push_char(out, '\\');
        push_char(out, 'r');
    } else if c == '\t' {
        push_char(out, '\\');
        push_char(out, 't');
    } else if (c as u32) < 0x20 {
        let u = c as u32;
        push_char(out, '\\');
        push_char(out, 'u');
        push_char(out, '0');
        push_char(out, '0');
        push_char(out, hex_lower_char(u / 16));
        push_char(out, hex_lower_char(u % 16));
    } else {
        push_char(out, c);
    }
    assert(out@ =~= start + escape_char(c));
}

/// Writes `s` as a JSON string literal.
pub fn push_quoted(out: &mut String, s: &str)
    ensures
        final(out)@ == old(out)@ + quote(s@),
{
    let ghost start = out@;
    let cs = chars_of(s);
    push_char(out, '"');
    let mut i: usize = 0;
    while i < cs.len()
        invariant
            cs@ == s@,
            i <= cs@.len(),
            out@ == start + seq!['"'] + escape(s@.subrange(0, i as int)),
        decreases cs.len() - i,
    {
        push_escaped_char(out, cs[i]);
        assert(s@.subrange(0, i + 1).drop_last() =~= s@.subrange(0, i as int));
        i = i + 1;
    }
    push_char(out, '"');
    assert(s@.subrange(0, cs@.len() as int) =~= s@);
    assert(out@ =~= start + quote(s@));
}

// ---------------------------------------------------------------------------
// Canonical text
// ---------------------------------------------------------------------------

/// Entry `i` is the first entry of the object with its key.
pub open spec fn is_first(es: Seq<(String, JsonValue)>, i: int) -> bool {
    &&& 0 <= i < es.len()
    &&& forall|j: int| 0 <= j < i ==> (#[trigger] es[j]).0@ != es[i].0@
}

/// The keys of the entries listed by `ord`.
pub open spec fn keys_at(es: Seq<(String, JsonValue)>, ord: Seq<usize>) -> Seq<Seq<char>> {
    ord.map_values(|i: usize| es[i as int].0@)
}

/// `ord` lists the first entry of every key, in increasing key order.
pub open spec fn order_ok(es: Seq<(String, JsonValue)>, ord: Seq<usize>) -> bool {
    &&& forall|p: int| 0 <= p < ord.len() ==> is_first(es, #[trigger] ord[p] as int)
    &&& strictly_sorted(keys_at(es, ord))
    &&& forall|i: int| is_first(es, i) ==> exists|p: int| 0 <= p < ord.len() && #[trigger] ord[p] == i
}

/// The canonical order of an object's entries.
pub open spec fn entry_order(es: Seq<(String, JsonValue)>) -> Seq<usize> {
    choose|ord: Seq<usize>| order_ok(es, ord)
}

pub open spec fn null_text() -> Seq<char> {
    seq!['n', 'u', 'l', 'l']
}

pub open spec fn bool_text(b: bool) -> Seq<char> {
    if b {
        seq!['t', 'r', 'u', 'e']
    } else {
        seq!['f', 'a', 'l', 's', 'e']
    }
}

/// The canonical text of a value, or `None` where it holds a float.
pub open spec fn canon(v: JsonValue) -> Option<Seq<char>>
    decreases v, 0int,
{
    match v {
        JsonValue::Null => Some(null_text()),
        JsonValue::Bool(b) => Some(bool_text(b)),
        JsonValue::Number(n) => match n {
            JsonNumber::PosInt(u) => Some(nat_decimal(u as nat)),
            JsonNumber::NegInt(i) => Some(int_decimal(i as int)),
            JsonNumber::Float => None,
        },
        JsonValue::Str(s) => Some(quote(s@)),
        JsonValue::Array(items) => match canon_items(items@, items@.len() as int) {
            Some(body) => Some(seq!['['] + body + seq![']']),
            None => None,
        },
        JsonValue::Object(es) => match canon_entries(
            es@,
            entry_order(es@),
            entry_order(es@).len() as int,
        ) {
            Some(body) => Some(seq!['{'] + body + seq!['}']),
            None => None,
        },
    }
}

/// The first `n` array items, comma separated.
pub open spec fn canon_items(items: Seq<JsonValue>, n: int) -> Option<Seq<char>>
    decreases items, n,
{
    if n <= 0 || n > items.len() {
        Some(Seq::empty())
    } else {
        match (canon_items(items, n - 1), canon(items[n - 1])) {
            (Some(a), Some(b)) => Some(
                if n > 1 {
                    a + seq![','] + b
                } else {
                    b
                },
            ),
            _ => None,
        }
    }
}

/// The entries `ord[0..n]` written as `"key":value`, comma separated.
pub open spec fn canon_entries(es: Seq<(String, JsonValue)>, ord: Seq<usize>, n: int) -> Option<
    Seq<char>,
>
    decreases es, n,
{
    if n <= 0 || n > ord.len() {
        Some(Seq::empty())
    } else {
        let i = ord[n - 1] as int;
        if 0 <= i < es.len() {
            match (canon_entries(es, ord, n - 1), canon(es[i].1)) {
                (Some(a), Some(b)) => {
                    let entry = quote(es[i].0@) + seq![':'] + b;
                    Some(
                        if n > 1 {
                            a + seq![','] + entry
                        } else {
                            entry
                        },
                    )
                },
                _ => None,
            }
        } else {
            None
        }
    }
}

/// Any two canonical orders of the same entries agree.
pub proof fn lemma_order_unique(es: Seq<(String, JsonValue)>, o1: Seq<usize>, o2: Seq<usize>)
    requires
        order_ok(es, o1),
        order_ok(es, o2),
    ensures
        o1 == o2,
{
    let k1 = keys_at(es, o1);
    let k2 = keys_at(es, o2);
    assert forall|k: Seq<char>| k1.contains(k) <==> k2.contains(k) by {
        if k1.contains(k) {
            let p = choose|p: int| 0 <= p < k1.len() && k1[p] == k;
            assert(is_first(es, o1[p] as int));
            let q = choose|q: int| 0 <= q < o2.len() && o2[q] == o1[p];
            assert(k2[q] == k);
        }
        if k2.contains(k) {
            let p = choose|p: int| 0 <= p < k2.len() && k2[p] == k;
            assert(is_first(es, o2[p] as int));
            let q = choose|q: int| 0 <= q < o1.len() && o1[q] == o2[p];
            assert(k1[q] == k);
        }
    }
    lemma_strictly_sorted_unique(k1, k2);
    assert(o1.len() == k1.len() && o2.len() == k2.len());
    assert forall|p: int| 0 <= p < o1.len() implies o1[p] == o2[p] by {
        assert(k1[p] == k2[p]);
        let a = o1[p] as int;
        let b = o2[p] as int;
        assert(is_first(es, a));
        assert(is_first(es, b));
        if a < b {
            assert(es[a].0@ != es[b].0@);
        } else if b < a {
            assert(es[b].0@ != es[a].0@);
        }
    }
    assert(o1 =~= o2);
}

proof fn lemma_first_exists(es: Seq<(String, JsonValue)>, j: int)
    requires
        0 <= j < es.len(),
    ensures
        exists|j0: int| 0 <= j0 <= j && is_first(es, j0) && es[j0].0@ == es[j].0@,
    decreases j,
{
    if !is_first(es, j) {
        let m = choose|m: int| 0 <= m < j && (#[trigger] es[m]).0@ == es[j].0@;
        lemma_first_exists(es, m);
    }
}

/// Computes the canonical order of an object's entries.
pub fn entry_order_of(es: &Vec<(String, JsonValue)>) -> (ord: Vec<usize>)
    ensures
        order_ok(es@, ord@),
{
    let n = es.len();
    let mut keys: Vec<Vec<char>> = Vec::new();
    let mut i: usize = 0;
    while i < n
        invariant
            n == es@.len(),
            i <= n,
            keys@.len() == i,
            forall|j: int| 0 <= j < i ==> (#[trigger] keys@[j])@ == es@[j].0@,
        decreases n - i,
    {
        keys.push(chars_of(es[i].0.as_str()));
        i = i + 1;
    }
    let mut ord: Vec<usize> = Vec::new();
    let mut i: usize = 0;
    while i < n
        invariant
            n == es@.len(),
            i <= n,
            keys@.len() == n,
            forall|j: int| 0 <= j < n ==> (#[trigger] keys@[j])@ == es@[j].0@,
            forall|p: int| 0 <= p < ord@.len() ==> (#[trigger] ord@[p] as int) < i && is_first(
                es@,
                ord@[p] as int,
            ),
            strictly_sorted(keys_at(es@, ord@)),
            forall|j: int|
                0 <= j < i && is_first(es@, j) ==> exists|p: int|
                    0 <= p < ord@.len() && #[trigger] ord@[p] == j,
        decreases n - i,
    {
        let ghost k = es@[i as int].0@;
        let mut p: usize = 0;
        while p < ord.len() && chars_less(&keys[ord[p]], &keys[i])
            invariant
                n == es@.len(),
                keys@.len() == n,
                forall|j: int| 0 <= j < n ==> (#[trigger] keys@[j])@ == es@[j].0@,
                forall|q: int| 0 <= q < ord@.len() ==> (#[trigger] ord@[q] as int) < i,
                i < n,
                k == es@[i as int].0@,
                p <= ord@.len(),
                forall|q: int| 0 <= q < p ==> chars_lt(#[trigger] keys_at(es@, ord@)[q], k),
            decreases ord.len() - p,
        {
            assert(keys_at(es@, ord@)[p as int] == keys@[ord@[p as int] as int]@);
            p = p + 1;
        }
        let dup = p < ord.len() && chars_equal(&keys[ord[p]], &keys[i]);
        if dup {
            proof {
                assert(!is_first(es@, i as int)) by {
                    assert(es@[ord@[p as int] as int].0@ == k);
                }
            }
        } else {
            let ghost old_ord = ord@;
            let ghost ok = keys_at(es@, old_ord);
            proof {
                // every listed key at or after `p` sorts after `k`
                assert forall|q: int| p <= q < old_ord.len() implies chars_lt(k, #[trigger] ok[q]) by {
                    lemma_chars_lt_total(ok[p as int], k);
                    if q > p {
                        assert(chars_lt(ok[p as int], ok[q]));
                        lemma_chars_lt_trans(k, ok[p as int], ok[q]);
                    }
                }
                assert(is_first(es@, i as int)) by {
                    assert forall|j: int| 0 <= j < i implies (#[trigger] es@[j]).0@ != k by {
                        if es@[j].0@ == k {
                            lemma_first_exists(es@, j);
                            let j0 = choose|j0: int| 0 <= j0 <= j && is_first(es@, j0) && es@[j0].0@ == k;
                            let q = choose|q: int| 0 <= q < old_ord.len() && #[trigger] old_ord[q] == j0;
                            assert(ok[q] == k);
                            lemma_chars_lt_irreflexive(k);
                        }
                    }
                }
            }
            ord.insert(p, i);
            proof {
                let nk = keys_at(es@, ord@);
                assert(ord@ == old_ord.insert(p as int, i));
                assert forall|q: int| 0 <= q < ord@.len() implies (#[trigger] ord@[q] as int) < i + 1
                    && is_first(es@, ord@[q] as int) by {
                    if q < p {
                        assert(ord@[q] == old_ord[q]);
                    } else if q > p {
                        assert(ord@[q] == old_ord[q - 1]);
                    }
                }
                assert forall|q1: int, q2: int| 0 <= q1 < q2 < nk.len() implies chars_lt(
                    #[trigger] nk[q1],
                    #[trigger] nk[q2],
                ) by {
                    let a = if q1 < p { q1 } else { q1 - 1 };
                    let b = if q2 < p { q2 } else { q2 - 1 };
                    if q1 == p {
                        assert(nk[q1] == k);
                        assert(nk[q2] == ok[b]);
                    } else if q2 == p {
                        assert(nk[q2] == k);
                        assert(nk[q1] == ok[a]);
                    } else {
                        assert(nk[q1] == ok[a]);
                        assert(nk[q2] == ok[b]);
                    }
                }
                assert forall|j: int| 0 <= j < i + 1 && is_first(es@, j) implies exists|q: int|
                    0 <= q < ord@.len() && #[trigger] ord@[q] == j by {
                    if j == i {
                        assert(ord@[p as int] == j);
                    } else {
                        let q = choose|q: int| 0 <= q < old_ord.len() && #[trigger] old_ord[q] == j;
                        if q < p {
                            assert(ord@[q] == j);
                        } else {
                            assert(ord@[q + 1] == j);
                        }
                    }
                }
            }
        }
        i = i + 1;
    }
    ord
}


pub(crate) proof fn lemma_items_none(items: Seq<JsonValue>, m: int, n: int)
    requires
        0 < m <= n <= items.len(),
        canon_items(items, m) is None,
    ensures
        canon_items(items, n) is None,
    decreases n - m,
{
    if n > m {
        lemma_items_none(items, m, n - 1);
    }
}

pub(crate) proof fn lemma_entries_none(es: Seq<(String, JsonValue)>, ord: Seq<usize>, m: int, n: int)
    requires
        0 < m <= n <= ord.len(),
        canon_entries(es, ord, m) is None,
    ensures
        canon_entries(es, ord, n) is None,
    decreases n - m,
{
    if n > m {
        lemma_entries_none(es, ord, m, n - 1);
    }
}

/// The error for a value that canonical JSON cannot hold.
pub fn float_forbidden() -> (e: AppError)
    ensures
        e.code@ == "KC_CANON_JSON_FLOAT_FORBIDDEN"@,
        e.category@ == "canon_json"@,
        !e.retryable,
{
    AppError::new(
        "KC_CANON_JSON_FLOAT_FORBIDDEN",
        "canon_json",
        "floats are forbidden in canonical json",
        false,
        empty_object(),
    )
}

/// Appends the canonical text of `v`; fails on the first float.
pub fn write_canonical(v: &JsonValue, out: &mut String) -> (r: Result<(), AppError>)
    ensures
        canon(*v) is Some ==> r is Ok && final(out)@ == old(out)@ + canon(*v)->Some_0,
        canon(*v) is None ==> r is Err && r->Err_0.code@ == "KC_CANON_JSON_FLOAT_FORBIDDEN"@,
    decreases v,
{
    match v {
        JsonValue::Null => {
            push_str(out, "null");
            proof {
                reveal_strlit("null");
            }
            assert(null_text() =~= "null"@);
            Ok(())
        },
        JsonValue::Bool(b) => {
            if *b {
                push_str(out, "true");
                proof {
                    reveal_strlit("true");
                }
                assert(bool_text(true) =~= "true"@);
            } else {
                push_str(out, "false");
                proof {
                    reveal_strlit("false");
                }
                assert(bool_text(false) =~= "false"@);
            }
            Ok(())
        },
        JsonValue::Number(n) => match n {
            JsonNumber::PosInt(u) => {
                let t = u64_decimal(*u);
                push_str(out, t.as_str());
                Ok(())
            },
            JsonNumber::NegInt(i) => {
                let t = i64_decimal(*i);
                push_str(out, t.as_str());
                Ok(())
            },
            JsonNumber::Float => Err(float_forbidden()),
        },
        JsonValue::Str(s) => {
            push_quoted(out, s.as_str());
            Ok(())
        },
        JsonValue::Array(items) => {
            let ghost start = out@;
            push_char(out, '[');
            let mut p: usize = 0;
            while p < items.len()
                invariant
                    *v == JsonValue::Array(*items),
                    p <= items@.len(),
                    canon_items(items@, p as int) is Some,
                    out@ == start + seq!['['] + canon_items(items@, p as int)->Some_0,
                decreases items.len() - p,
            {
                if p > 0 {
                    push_char(out, ',');
                }
                let ghost before = out@;
                let r = write_canonical(&items[p], out);
                match r {
                    Ok(()) => {},
                    Err(e) => {
                        proof {
                            assert(canon_items(items@, p + 1) is None);
                            lemma_items_none(items@, p + 1, items@.len() as int);
                        }
                        return Err(e);
                    },
                }
                assert(out@ =~= start + seq!['['] + canon_items(items@, p + 1)->Some_0);
                p = p + 1;
            }
            push_char(out, ']');
            Ok(())
        },
        JsonValue::Object(es) => {
            let ord = entry_order_of(es);
            proof {
                lemma_order_unique(es@, ord@, entry_order(es@));
            }
            let ghost start = out@;
            push_char(out, '{');
            let mut p: usize = 0;
            while p < ord.len()
                invariant
                    *v == JsonValue::Object(*es),
                    order_ok(es@, ord@),
                    ord@ == entry_order(es@),
                    p <= ord@.len(),
                    canon_entries(es@, ord@, p as int) is Some,
                    out@ == start + seq!['{'] + canon_entries(es@, ord@, p as int)->Some_0,
                decreases ord.len() - p,
            {
                assert(is_first(es@, ord@[p as int] as int));
                let i = ord[p];
                if p > 0 {
                    push_char(out, ',');
                }
                push_quoted(out, es[i].0.as_str());
                push_char(out, ':');
                let r = write_canonical(&es[i].1, out);
                match r {
                    Ok(()) => {},
                    Err(e) => {
                        proof {
                            assert(canon_entries(es@, ord@, p + 1) is None);
                            lemma_entries_none(es@, ord@, p + 1, ord@.len() as int);
                        }
                        return Err(e);
                    },
                }
                assert(out@ =~= start + seq!['{'] + canon_entries(es@, ord@, p + 1)->Some_0);
                p = p + 1;
            }
            push_char(out, '}');
            Ok(())
        },
    }
}

/// The canonical text of `v` as a string.
pub fn canonical_string(v: &JsonValue) -> (r: Result<String, AppError>)
    ensures
        canon(*v) is Some ==> r is Ok && r->Ok_0@ == canon(*v)->Some_0,
        canon(*v) is None ==> r is Err && r->Err_0.code@ == "KC_CANON_JSON_FLOAT_FORBIDDEN"@,
{
    let mut out = String::new();
    match write_canonical(v, &mut out) {
        Ok(()) => {
            assert(out@ =~= canon(*v)->Some_0);
            Ok(out)
        },
        Err(e) => Err(e),
    }
}


/// A string value.
pub fn jstr(s: &str) -> (v: JsonValue)
    ensures
        v matches JsonValue::Str(t) && t@ == s@,
{
    JsonValue::Str(crate::text::owned(s))
}

/// An integer value, held the way a JSON reader holds it.
pub fn jint(i: i64) -> (v: JsonValue)
    ensures
        i >= 0 ==> v == JsonValue::Number(JsonNumber::PosInt(i as u64)),
        i < 0 ==> v == JsonValue::Number(JsonNumber::NegInt(i)),
{
    if i < 0 {
        JsonValue::Number(JsonNumber::NegInt(i))
    } else {
        JsonValue::Number(JsonNumber::PosInt(i as u64))
    }
}

/// An unsigned integer value.
pub fn juint(u: u64) -> (v: JsonValue)
    ensures
        v == JsonValue::Number(JsonNumber::PosInt(u)),
{
    JsonValue::Number(JsonNumber::PosInt(u))
}

/// An optional string: the string, or `null`.
pub fn jopt_str(s: &Option<String>) -> (v: JsonValue)
    ensures
        s is None ==> v is Null,
        s is Some ==> (v matches JsonValue::Str(t) && t@ == s->Some_0@),
{
    match s {
        Some(t) => jstr(t.as_str()),
        None => JsonValue::Null,
    }
}

/// An object entry.
pub fn field(k: &str, v: JsonValue) -> (e: (String, JsonValue))
    ensures
        e.0@ == k@,
        e.1 == v,
{
    (crate::text::owned(k), v)
}



/// An object built from entries whose values are the scalars `want` lists.
pub proof fn lemma_flat_obj(es: Vec<(String, JsonValue)>, want: Seq<(Seq<char>, JAtom)>)
    requires
        es@.len() == want.len(),
        forall|i: int| 0 <= i < want.len() ==> (#[trigger] es@[i]).0@ == want[i].0 && atom_of(es@[i].1) == Some(want[i].1),
    ensures
        flat_obj(JsonValue::Object(es)) == Some(want),
{
    assert forall|i: int| 0 <= i < es@.len() implies (#[trigger] atom_of(es@[i].1)) is Some by {
        assert(atom_of(es@[i].1) == Some(want[i].1));
    }
    let got = Seq::new(es@.len(), |i: int| (es@[i].0@, atom_of(es@[i].1)->Some_0));
    assert forall|i: int| 0 <= i < want.len() implies got[i] == want[i] by {
        assert(atom_of(es@[i].1) == Some(want[i].1));
    }
    assert(got =~= want);
}

/// An entry holding a string.
pub fn sfield(k: &str, v: &str) -> (e: (String, JsonValue))
    ensures
        e.0@ == k@,
        atom_of(e.1) == Some(JAtom::Str(v@)),
{
    (crate::text::owned(k), jstr(v))
}

/// An entry holding an integer.
pub fn ifield(k: &str, v: i64) -> (e: (String, JsonValue))
    ensures
        e.0@ == k@,
        atom_of(e.1) == Some(JAtom::Int(v as int)),
{
    (crate::text::owned(k), jint(v))
}

/// An entry holding a boolean.
pub fn bfield(k: &str, v: bool) -> (e: (String, JsonValue))
    ensures
        e.0@ == k@,
        atom_of(e.1) == Some(JAtom::Bool(v)),
{
    (crate::text::owned(k), JsonValue::Bool(v))
}

/// The scalar of an optional string: the string, or `null`.
pub open spec fn opt_atom(o: Option<String>) -> JAtom {
    match o {
        Some(s) => JAtom::Str(s@),
        None => JAtom::Null,
    }
}

/// An entry holding an optional string.
pub fn ofield(k: &str, v: &Option<String>) -> (e: (String, JsonValue))
    ensures
        e.0@ == k@,
        atom_of(e.1) == Some(opt_atom(*v)),
{
    (crate::text::owned(k), jopt_str(v))
}

/// `{}`.
pub fn empty_object() -> (v: JsonValue)
    ensures
        is_empty_object(v),
{
    JsonValue::Object(Vec::new())
}

/// The UTF-8 bytes of the canonical text of `value`.
pub fn to_canonical_bytes(value: &JsonValue) -> (r: Result<Vec<u8>, AppError>)
    ensures
        canon(*value) is Some ==> r is Ok && r->Ok_0@ == vstd::utf8::encode_utf8(canon(*value)->Some_0),
        canon(*value) is None ==> r is Err && r->Err_0.code@ == "KC_CANON_JSON_FLOAT_FORBIDDEN"@,
{
    let s = canonical_string(value)?;
    Ok(crate::text::bytes_of(s.as_str()))
}

/// The prefixed BLAKE3 hash of the canonical bytes of `value`.
pub fn hash_canonical(value: &JsonValue) -> (r: Result<String, AppError>)
    ensures
        canon(*value) is Some ==> r is Ok && r->Ok_0@ == crate::hashing::blake3_prefixed(
            vstd::utf8::encode_utf8(canon(*value)->Some_0),
        ),
        canon(*value) is None ==> r is Err && r->Err_0.code@ == "KC_CANON_JSON_FLOAT_FORBIDDEN"@,
{
    let bytes = to_canonical_bytes(value)?;
    Ok(crate::hashing::blake3_hex_prefixed(bytes.as_slice()))
}

/// An array of strings.
pub fn jstr_list(v: &Vec<String>) -> (r: JsonValue)
    ensures
        r is Array,
        r->Array_0@.len() == v@.len(),
        forall|k: int| 0 <= k < v@.len() ==> #[trigger] atom_of(r->Array_0@[k]) == Some(JAtom::Str(v@[k]@)),
{
    let mut items: Vec<JsonValue> = Vec::new();
    let mut i: usize = 0;
    while i < v.len()
        invariant
            i <= v@.len(),
            items@.len() == i,
            forall|k: int| 0 <= k < i ==> #[trigger] atom_of(items@[k]) == Some(JAtom::Str(v@[k]@)),
        decreases v.len() - i,
    {
        items.push(jstr(v[i].as_str()));
        i = i + 1;
    }
    JsonValue::Array(items)
}

// ---------------------------------------------------------------------------
// The canonical text does not depend on how an object's entries are ordered
// ---------------------------------------------------------------------------

/// What `find_key` finds: the first entry with the key, if any.
proof fn lemma_find_key_found(es: Seq<(String, JsonValue)>, k: Seq<char>)
    ensures
        0 <= find_key(es, k) <= es.len(),
        forall|j: int| 0 <= j < find_key(es, k) ==> (#[trigger] es[j]).0@ != k,
        find_key(es, k) < es.len() ==> es[find_key(es, k)].0@ == k,
    decreases es.len(),
{
    if es.len() > 0 && es[0].0@ != k {
        lemma_find_key_found(es.drop_first(), k);
        assert forall|j: int| 0 <= j < find_key(es, k) implies (#[trigger] es[j]).0@ != k by {
            if j > 0 {
                assert(es[j] == es.drop_first()[j - 1]);
            }
        }
    }
}

/// Where a key that is not among strictly sorted keys goes.
spec fn insert_pos(ks: Seq<Seq<char>>, k: Seq<char>) -> int
    decreases ks.len(),
{
    if ks.len() == 0 {
        0
    } else if chars_lt(ks.last(), k) {
        ks.len() as int
    } else {
        insert_pos(ks.drop_last(), k)
    }
}

proof fn lemma_insert_pos(ks: Seq<Seq<char>>, k: Seq<char>)
    requires
        strictly_sorted(ks),
        !ks.contains(k),
    ensures
        0 <= insert_pos(ks, k) <= ks.len(),
        forall|q: int| 0 <= q < insert_pos(ks, k) ==> chars_lt(#[trigger] ks[q], k),
        forall|q: int| insert_pos(ks, k) <= q < ks.len() ==> chars_lt(k, #[trigger] ks[q]),
    decreases ks.len(),
{
    if ks.len() > 0 {
        let n = ks.len() - 1;
        if chars_lt(ks.last(), k) {
            assert forall|q: int| 0 <= q < ks.len() implies chars_lt(#[trigger] ks[q], k) by {
                if q < n {
                    assert(chars_lt(ks[q], ks[n]));
                    lemma_chars_lt_trans(ks[q], ks[n], k);
                }
            }
        } else {
            assert(ks[n] != k);
            lemma_chars_lt_total(ks[n], k);
            let d = ks.drop_last();
            assert(!d.contains(k)) by {
                if d.contains(k) {
                    let q = choose|q: int| 0 <= q < d.len() && d[q] == k;
                    assert(ks[q] == k);
                }
            }
            lemma_insert_pos(d, k);
            let p = insert_pos(d, k);
            assert forall|q: int| p <= q < ks.len() implies chars_lt(k, #[trigger] ks[q]) by {
                if q < n {
                    assert(ks[q] == d[q]);
                }
            }
            assert forall|q: int| 0 <= q < p implies chars_lt(#[trigger] ks[q], k) by {
                assert(ks[q] == d[q]);
            }
        }
    }
}

/// Every object, as long as a `Vec` can hold, has a canonical order of its
/// entries.
pub(crate) proof fn lemma_order_exists(es: Seq<(String, JsonValue)>) -> (ord: Seq<usize>)
    requires
        es.len() <= usize::MAX,
    ensures
        order_ok(es, ord),
    decreases es.len(),
{
    if es.len() == 0 {
        Seq::empty()
    } else {
        let n = es.len() - 1;
        let k = es[n].0@;
        let d = es.drop_last();
        let o = lemma_order_exists(d);
        assert forall|i: int| 0 <= i < n implies #[trigger] is_first(es, i) == is_first(d, i) by {
            assert forall|j: int| 0 <= j < i implies (#[trigger] es[j]) == d[j] by {}
            assert(es[i] == d[i]);
            if is_first(d, i) {
                assert forall|j: int| 0 <= j < i implies (#[trigger] es[j]).0@ != es[i].0@ by {
                    assert(d[j].0@ != d[i].0@);
                }
            }
            if is_first(es, i) {
                assert forall|j: int| 0 <= j < i implies (#[trigger] d[j]).0@ != d[i].0@ by {
                    assert(es[j].0@ != es[i].0@);
                }
            }
        }
        let ok = keys_at(d, o);
        assert(keys_at(es, o) =~= ok) by {
            assert forall|p: int| 0 <= p < o.len() implies keys_at(es, o)[p] == ok[p] by {
                assert(is_first(d, o[p] as int));
                assert(es[o[p] as int] == d[o[p] as int]);
            }
        }
        if exists|j: int| 0 <= j < n && (#[trigger] es[j]).0@ == k {
            let j = choose|j: int| 0 <= j < n && (#[trigger] es[j]).0@ == k;
            assert(!is_first(es, n as int));
            assert forall|p: int| 0 <= p < o.len() implies is_first(es, #[trigger] o[p] as int) by {
                assert(is_first(d, o[p] as int));
            }
            assert forall|i: int| is_first(es, i) implies exists|p: int| 0 <= p < o.len() && #[trigger] o[p] == i by {
                if i < n {
                    assert(is_first(d, i));
                }
            }
            o
        } else {
            assert(is_first(es, n as int));
            assert(!ok.contains(k)) by {
                if ok.contains(k) {
                    let q = choose|q: int| 0 <= q < ok.len() && ok[q] == k;
                    assert(is_first(d, o[q] as int));
                    assert(es[o[q] as int].0@ == k);
                }
            }
            lemma_insert_pos(ok, k);
            let p = insert_pos(ok, k);
            let o2 = o.insert(p, n as usize);
            let nk = keys_at(es, o2);
            assert forall|q: int| 0 <= q < o2.len() implies is_first(es, #[trigger] o2[q] as int) by {
                if q < p {
                    assert(o2[q] == o[q]);
                    assert(is_first(d, o[q] as int));
                } else if q > p {
                    assert(o2[q] == o[q - 1]);
                    assert(is_first(d, o[q - 1] as int));
                }
            }
            assert forall|q1: int, q2: int| 0 <= q1 < q2 < nk.len() implies chars_lt(#[trigger] nk[q1], #[trigger] nk[q2]) by {
                let a = if q1 < p { q1 } else { q1 - 1 };
                let b = if q2 < p { q2 } else { q2 - 1 };
                if q1 == p {
                    assert(nk[q1] == k);
                    assert(nk[q2] == keys_at(es, o)[b]);
                } else if q2 == p {
                    assert(nk[q2] == k);
                    assert(nk[q1] == keys_at(es, o)[a]);
                } else {
                    assert(nk[q1] == keys_at(es, o)[a]);
                    assert(nk[q2] == keys_at(es, o)[b]);
                }
            }
            assert forall|i: int| is_first(es, i) implies exists|q: int| 0 <= q < o2.len() && #[trigger] o2[q] == i by {
                if i == n {
                    assert(o2[p] == i);
                } else {
                    assert(is_first(d, i));
                    let q = choose|q: int| 0 <= q < o.len() && #[trigger] o[q] == i;
                    if q < p {
                        assert(o2[q] == i);
                    } else {
                        assert(o2[q + 1] == i);
                    }
                }
            }
            o2
        }
    }
}

proof fn lemma_canon_entries_agree(
    x: Seq<(String, JsonValue)>,
    ox: Seq<usize>,
    y: Seq<(String, JsonValue)>,
    oy: Seq<usize>,
    n: int,
)
    requires
        ox.len() == oy.len(),
        0 <= n <= ox.len(),
        forall|p: int| 0 <= p < ox.len() ==> 0 <= #[trigger] ox[p] < x.len(),
        forall|p: int| 0 <= p < oy.len() ==> 0 <= #[trigger] oy[p] < y.len(),
        forall|p: int| 0 <= p < ox.len() ==> (#[trigger] x[ox[p] as int]).0@ == y[oy[p] as int].0@
            && x[ox[p] as int].1 == y[oy[p] as int].1,
    ensures
        canon_entries(x, ox, n) == canon_entries(y, oy, n),
    decreases n,
{
    if n > 0 {
        lemma_canon_entries_agree(x, ox, y, oy, n - 1);
        assert(x[ox[n - 1] as int].0@ == y[oy[n - 1] as int].0@);
    }
}

/// Canonical JSON does not depend on the order of an object's entries: two
/// objects that give every key the same value (the first entry with it
/// counting) have the same canonical text, and so the same canonical hash.
pub proof fn law_canon_ignores_entry_order(a: JsonValue, b: JsonValue)
    requires
        a is Object,
        b is Object,
        forall|k: Seq<char>| #[trigger] entry_value(obj_entries(a), k) == entry_value(obj_entries(b), k),
    ensures
        canon(a) == canon(b),
{
    let xv = a->Object_0;
    let yv = b->Object_0;
    let x = xv@;
    let y = yv@;
    assert(x.len() == xv.len());
    assert(y.len() == yv.len());
    let _ = lemma_order_exists(x);
    let _ = lemma_order_exists(y);
    let ox = entry_order(x);
    let oy = entry_order(y);
    let kx = keys_at(x, ox);
    let ky = keys_at(y, oy);
    assert forall|k: Seq<char>| kx.contains(k) <==> ky.contains(k) by {
        lemma_find_key_found(x, k);
        lemma_find_key_found(y, k);
        assert(entry_value(obj_entries(a), k) == entry_value(obj_entries(b), k));
        if kx.contains(k) {
            let p = choose|p: int| 0 <= p < kx.len() && kx[p] == k;
            assert(is_first(x, ox[p] as int));
            lemma_find_key(x, k, ox[p] as int);
            let i = find_key(y, k);
            assert(i < y.len());
            assert(is_first(y, i));
            let q = choose|q: int| 0 <= q < oy.len() && #[trigger] oy[q] == i;
            assert(ky[q] == k);
        }
        if ky.contains(k) {
            let p = choose|p: int| 0 <= p < ky.len() && ky[p] == k;
            assert(is_first(y, oy[p] as int));
            lemma_find_key(y, k, oy[p] as int);
            let i = find_key(x, k);
            assert(i < x.len());
            assert(is_first(x, i));
            let q = choose|q: int| 0 <= q < ox.len() && #[trigger] ox[q] == i;
            assert(kx[q] == k);
        }
    }
    lemma_strictly_sorted_unique(kx, ky);
    assert forall|p: int| 0 <= p < ox.len() implies (#[trigger] x[ox[p] as int]).0@ == y[oy[p] as int].0@
        && x[ox[p] as int].1 == y[oy[p] as int].1 by {
        let k = kx[p];
        assert(ky[p] == k);
        assert(is_first(x, ox[p] as int));
        assert(is_first(y, oy[p] as int));
        lemma_find_key(x, k, ox[p] as int);
        lemma_find_key(y, k, oy[p] as int);
        assert(entry_value(obj_entries(a), k) == entry_value(obj_entries(b), k));
    }
    assert forall|p: int| 0 <= p < ox.len() implies 0 <= #[trigger] ox[p] < x.len() by {
        assert(is_first(x, ox[p] as int));
    }
    assert forall|p: int| 0 <= p < oy.len() implies 0 <= #[trigger] oy[p] < y.len() by {
        assert(is_first(y, oy[p] as int));
    }
    lemma_canon_entries_agree(x, ox, y, oy, ox.len() as int);
}

} // verus!
