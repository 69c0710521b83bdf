//! Canonical JSON text decodes back: two values have the same canonical
//! text exactly when they are equal up to the order (and repetition) of
//! object keys.
use vstd::prelude::*;
use crate::json::{JsonValue, JsonNumber, atom_of, canon, canon_items, canon_entries, entry_order,
    escape, escape_char, quote, hex_digit_lower, lemma_order_exists, lemma_items_none, lemma_entries_none};
use crate::text::{nat_decimal, int_decimal, digit_char};

verus! {

/// A decimal digit.
pub open spec fn is_dec_digit(c: char) -> bool {
    '0' <= c && c <= '9'
}

proof fn lemma_digit_char(d: nat, e: nat)
    requires
        d < 10,
        e < 10,
    ensures
        digit_char(d) as int == d + 48,
        is_dec_digit(digit_char(d)),
        digit_char(d) == digit_char(e) ==> d == e,
{
    assert(digit_char(d) as int == d + 48);
    assert(digit_char(e) as int == e + 48);
}

proof fn lemma_nat_decimal_digits(n: nat)
    ensures
        nat_decimal(n).len() >= 1,
        n < 10 <==> nat_decimal(n).len() == 1,
        forall|i: int| 0 <= i < nat_decimal(n).len() ==> is_dec_digit(#[trigger] nat_decimal(n)[i]),
    decreases n,
{
    if n < 10 {
        lemma_digit_char(n, n);
    } else {
        lemma_nat_decimal_digits(n / 10);
        lemma_digit_char(n % 10, n % 10);
        let p = nat_decimal(n / 10);
        assert forall|i: int| 0 <= i < nat_decimal(n).len() implies is_dec_digit(#[trigger] nat_decimal(n)[i]) by {
            if i < p.len() {
                assert(nat_decimal(n)[i] == p[i]);
            }
        }
    }
}

proof fn lemma_nat_decimal_inj(x: nat, y: nat)
    requires
        nat_decimal(x) == nat_decimal(y),
    ensures
        x == y,
    decreases x,
{
    lemma_nat_decimal_digits(x);
    lemma_nat_decimal_digits(y);
    if x < 10 {
        assert(y < 10);
        assert(nat_decimal(x)[0] == digit_char(x));
        assert(nat_decimal(y)[0] == digit_char(y));
        lemma_digit_char(x, y);
    } else {
        assert(y >= 10);
        let dx = nat_decimal(x);
        let dy = nat_decimal(y);
        assert(dx.last() == digit_char(x % 10));
        assert(dy.last() == digit_char(y % 10));
        lemma_digit_char(x % 10, y % 10);
        assert(x % 10 == y % 10);
        assert(dx.drop_last() =~= nat_decimal(x / 10));
        assert(dy.drop_last() =~= nat_decimal(y / 10));
        lemma_nat_decimal_inj(x / 10, y / 10);
        assert(x == 10 * (x / 10) + x % 10) by (nonlinear_arith);
        assert(y == 10 * (y / 10) + y % 10) by (nonlinear_arith);
    }
}

/// Nothing, or something that does not continue a number.
pub open spec fn ends_number(r: Seq<char>) -> bool {
    r.len() == 0 || !is_dec_digit(r[0])
}

proof fn lemma_digits_prefix(d1: Seq<char>, d2: Seq<char>, r1: Seq<char>, r2: Seq<char>)
    requires
        forall|i: int| 0 <= i < d1.len() ==> is_dec_digit(#[trigger] d1[i]),
        forall|i: int| 0 <= i < d2.len() ==> is_dec_digit(#[trigger] d2[i]),
        d1 + r1 == d2 + r2,
        ends_number(r1),
        ends_number(r2),
    ensures
        d1 == d2,
{
    let t = d1 + r1;
    if d1.len() < d2.len() {
        assert(t[d1.len() as int] == r1[0]);
        assert((d2 + r2)[d1.len() as int] == d2[d1.len() as int]);
    } else if d2.len() < d1.len() {
        assert(t[d2.len() as int] == d1[d2.len() as int]);
        assert((d2 + r2)[d2.len() as int] == r2[0]);
    }
    assert(d1 =~= t.subrange(0, d1.len() as int));
    assert(d2 =~= (d2 + r2).subrange(0, d2.len() as int));
}

proof fn lemma_int_decimal_prefix(x: int, y: int, r1: Seq<char>, r2: Seq<char>)
    requires
        int_decimal(x) + r1 == int_decimal(y) + r2,
        ends_number(r1),
        ends_number(r2),
    ensures
        x == y,
{
    let nx: nat = if x < 0 { (-x) as nat } else { x as nat };
    let ny: nat = if y < 0 { (-y) as nat } else { y as nat };
    lemma_nat_decimal_digits(nx);
    lemma_nat_decimal_digits(ny);
    let t = int_decimal(x) + r1;
    assert(t == int_decimal(y) + r2);
    assert(!is_dec_digit('-'));
    if x < 0 {
        assert(t[0] == '-');
    } else {
        assert(t[0] == nat_decimal(nx)[0]);
    }
    if y < 0 {
        assert((int_decimal(y) + r2)[0] == '-');
    } else {
        assert((int_decimal(y) + r2)[0] == nat_decimal(ny)[0]);
    }
    assert((x < 0) == (y < 0));
    if x < 0 {
        assert(t.drop_first() =~= nat_decimal(nx) + r1);
        assert((int_decimal(y) + r2).drop_first() =~= nat_decimal(ny) + r2);
    }
    lemma_digits_prefix(nat_decimal(nx), nat_decimal(ny), r1, r2);
    lemma_nat_decimal_inj(nx, ny);
}

proof fn lemma_hex_digit(d: nat, e: nat)
    requires
        d < 16,
        e < 16,
    ensures
        hex_digit_lower(d) == hex_digit_lower(e) ==> d == e,
{
    if d < 10 {
        assert(hex_digit_lower(d) as int == d + 48);
    } else {
        assert(hex_digit_lower(d) as int == d + 87);
    }
    if e < 10 {
        assert(hex_digit_lower(e) as int == e + 48);
    } else {
        assert(hex_digit_lower(e) as int == e + 87);
    }
}

/// What one escaped character starts with: never a closing quote.
proof fn lemma_escape_char_start(c: char)
    ensures
        escape_char(c).len() >= 1,
        escape_char(c)[0] != '"',
        escape_char(c)[0] != '\\' ==> escape_char(c) == seq![c],
{
}

/// Escaped characters can be told apart from their first characters on.
proof fn lemma_escape_char_inj(c1: char, c2: char, x: Seq<char>, y: Seq<char>)
    requires
        escape_char(c1) + x == escape_char(c2) + y,
    ensures
        c1 == c2,
{
    let e1 = escape_char(c1);
    let e2 = escape_char(c2);
    let t = e1 + x;
    let u = e2 + y;
    lemma_escape_char_start(c1);
    lemma_escape_char_start(c2);
    assert(t[0] == e1[0]);
    assert(u[0] == e2[0]);
    if e1[0] != '\\' {
        assert(e2[0] != '\\');
    } else {
        assert(e2[0] == '\\');
        assert(e1.len() >= 2 && e2.len() >= 2);
        assert(t[1] == e1[1]);
        assert(u[1] == e2[1]);
        if e1[1] == 'u' {
            assert(e2[1] == 'u');
            assert(e1.len() == 6 && e2.len() == 6);
            assert(t[4] == e1[4] && t[5] == e1[5]);
            assert(u[4] == e2[4] && u[5] == e2[5]);
            let a = c1 as u32;
            let b = c2 as u32;
            lemma_hex_digit((a / 16) as nat, (b / 16) as nat);
            lemma_hex_digit((a % 16) as nat, (b % 16) as nat);
            assert(a == 16 * (a / 16) + a % 16) by (nonlinear_arith);
            assert(b == 16 * (b / 16) + b % 16) by (nonlinear_arith);
            assert(a == b);
        }
    }
}

/// Escaping, read from the front: the first character's escape, then the rest.
proof fn lemma_escape_front(s: Seq<char>)
    requires
        s.len() > 0,
    ensures
        escape(s) == escape_char(s[0]) + escape(s.drop_first()),
    decreases s.len(),
{
    if s.len() == 1 {
        assert(s.drop_last() =~= Seq::<char>::empty());
        assert(s.drop_first() =~= Seq::<char>::empty());
        assert(escape(s.drop_first()) =~= Seq::<char>::empty());
        assert(escape(s) =~= escape_char(s[0]));
    } else {
        lemma_escape_front(s.drop_last());
        assert(s.drop_last()[0] == s[0]);
        assert(s.drop_last().drop_first() =~= s.drop_first().drop_last());
        assert(s.drop_first().last() == s.last());
        assert(escape(s) =~= escape_char(s[0]) + escape(s.drop_first()));
    }
}

/// The closing quote of an escaped string is found where it is: escaped
/// texts followed by a quote agree only when the strings agree.
proof fn lemma_escape_decode(s1: Seq<char>, s2: Seq<char>, r1: Seq<char>, r2: Seq<char>)
    requires
        escape(s1) + seq!['"'] + r1 == escape(s2) + seq!['"'] + r2,
    ensures
        s1 == s2,
        r1 == r2,
    decreases s1.len(),
{
    if s1.len() == 0 {
        assert(escape(s1) =~= Seq::<char>::empty());
        if s2.len() > 0 {
            lemma_escape_front(s2);
            lemma_escape_char_start(s2[0]);
            assert((escape(s2) + seq!['"'] + r2)[0] == escape_char(s2[0])[0]);
            assert((escape(s1) + seq!['"'] + r1)[0] == '"');
        }
        assert(escape(s2) =~= Seq::<char>::empty());
        assert(s1 =~= s2);
        assert(r1 =~= (escape(s1) + seq!['"'] + r1).drop_first());
        assert(r2 =~= (escape(s2) + seq!['"'] + r2).drop_first());
    } else {
        lemma_escape_front(s1);
        lemma_escape_char_start(s1[0]);
        if s2.len() == 0 {
            assert(escape(s2) =~= Seq::<char>::empty());
            assert((escape(s1) + seq!['"'] + r1)[0] == escape_char(s1[0])[0]);
            assert((escape(s2) + seq!['"'] + r2)[0] == '"');
        }
        lemma_escape_front(s2);
        let x1 = escape(s1.drop_first()) + seq!['"'] + r1;
        let x2 = escape(s2.drop_first()) + seq!['"'] + r2;
        assert(escape(s1) + seq!['"'] + r1 =~= escape_char(s1[0]) + x1);
        assert(escape(s2) + seq!['"'] + r2 =~= escape_char(s2[0]) + x2);
        lemma_escape_char_inj(s1[0], s2[0], x1, x2);
        let n = escape_char(s1[0]).len() as int;
        assert(x1 =~= (escape_char(s1[0]) + x1).subrange(n, (escape_char(s1[0]) + x1).len() as int));
        assert(x2 =~= (escape_char(s2[0]) + x2).subrange(n, (escape_char(s2[0]) + x2).len() as int));
        lemma_escape_decode(s1.drop_first(), s2.drop_first(), r1, r2);
        assert(s1 =~= seq![s1[0]] + s1.drop_first());
        assert(s2 =~= seq![s2[0]] + s2.drop_first());
    }
}

/// A quoted string is read back whole, whatever follows it.
proof fn lemma_quote_decode(s1: Seq<char>, s2: Seq<char>, r1: Seq<char>, r2: Seq<char>)
    requires
        quote(s1) + r1 == quote(s2) + r2,
    ensures
        s1 == s2,
        r1 == r2,
{
    let t1 = quote(s1) + r1;
    let t2 = quote(s2) + r2;
    assert(t1.drop_first() =~= escape(s1) + seq!['"'] + r1);
    assert(t2.drop_first() =~= escape(s2) + seq!['"'] + r2);
    lemma_escape_decode(s1, s2, r1, r2);
}

/// The canonical text of a value that has one.
pub open spec fn ctext(v: JsonValue) -> Seq<char> {
    canon(v)->Some_0
}

/// Texts joined with commas.
pub open spec fn join(ts: Seq<Seq<char>>) -> Seq<char>
    decreases ts.len(),
{
    if ts.len() == 0 {
        Seq::empty()
    } else if ts.len() == 1 {
        ts[0]
    } else {
        ts[0] + seq![','] + join(ts.drop_first())
    }
}

/// The canonical texts of array items.
pub open spec fn item_texts(xs: Seq<JsonValue>) -> Seq<Seq<char>> {
    Seq::new(xs.len(), |i: int| ctext(xs[i]))
}

/// The canonical texts `"key":value` of the entries `ord` lists.
pub open spec fn entry_texts(es: Seq<(String, JsonValue)>, ord: Seq<usize>) -> Seq<Seq<char>> {
    Seq::new(ord.len(), |p: int| quote(es[ord[p] as int].0@) + seq![':'] + ctext(es[ord[p] as int].1))
}

proof fn lemma_join_push(ts: Seq<Seq<char>>, t: Seq<char>)
    ensures
        join(ts.push(t)) == (if ts.len() == 0 { t } else { join(ts) + seq![','] + t }),
    decreases ts.len(),
{
    if ts.len() == 0 {
        assert(ts.push(t).len() == 1 && ts.push(t)[0] == t);
    } else if ts.len() == 1 {
        assert(ts.push(t).drop_first() =~= seq![t]);
        assert(seq![t].len() == 1 && seq![t][0] == t);
        assert(join(seq![t]) == t);
        assert(ts.push(t)[0] == ts[0]);
        assert(join(ts.push(t)) == ts[0] + seq![','] + t);
    } else {
        assert(ts.push(t).drop_first() =~= ts.drop_first().push(t));
        lemma_join_push(ts.drop_first(), t);
        assert(join(ts.push(t)) =~= join(ts) + seq![','] + t);
    }
}

proof fn lemma_items_join(xs: Seq<JsonValue>, n: int)
    requires
        0 <= n <= xs.len(),
        forall|i: int| 0 <= i < xs.len() ==> (#[trigger] canon(xs[i])) is Some,
    ensures
        canon_items(xs, n) == Some(join(item_texts(xs).take(n))),
    decreases n,
{
    if n == 0 {
        assert(item_texts(xs).take(0) =~= Seq::<Seq<char>>::empty());
    } else {
        lemma_items_join(xs, n - 1);
        assert(item_texts(xs).take(n) =~= item_texts(xs).take(n - 1).push(ctext(xs[n - 1])));
        lemma_join_push(item_texts(xs).take(n - 1), ctext(xs[n - 1]));
        assert(canon(xs[n - 1]) is Some);
    }
}

proof fn lemma_entries_join(es: Seq<(String, JsonValue)>, ord: Seq<usize>, n: int)
    requires
        0 <= n <= ord.len(),
        forall|p: int| 0 <= p < ord.len() ==> 0 <= #[trigger] ord[p] < es.len(),
        forall|p: int| 0 <= p < ord.len() ==> (#[trigger] canon(es[ord[p] as int].1)) is Some,
    ensures
        canon_entries(es, ord, n) == Some(join(entry_texts(es, ord).take(n))),
    decreases n,
{
    if n == 0 {
        assert(entry_texts(es, ord).take(0) =~= Seq::<Seq<char>>::empty());
    } else {
        lemma_entries_join(es, ord, n - 1);
        let i = ord[n - 1] as int;
        assert(canon(es[i].1) is Some);
        let t = quote(es[i].0@) + seq![':'] + ctext(es[i].1);
        assert(entry_texts(es, ord).take(n) =~= entry_texts(es, ord).take(n - 1).push(t));
        lemma_join_push(entry_texts(es, ord).take(n - 1), t);
    }
}

/// Every item of an array that has a canonical text has one.
proof fn lemma_items_some(xs: Seq<JsonValue>)
    requires
        canon_items(xs, xs.len() as int) is Some,
    ensures
        forall|i: int| 0 <= i < xs.len() ==> (#[trigger] canon(xs[i])) is Some,
{
    assert forall|i: int| 0 <= i < xs.len() implies (#[trigger] canon(xs[i])) is Some by {
        if canon(xs[i]) is None {
            assert(canon_items(xs, i + 1) is None);
            lemma_items_none(xs, i + 1, xs.len() as int);
        }
    }
}

/// Every listed entry of an object that has a canonical text has one.
proof fn lemma_entries_some(es: Seq<(String, JsonValue)>, ord: Seq<usize>)
    requires
        canon_entries(es, ord, ord.len() as int) is Some,
    ensures
        forall|p: int| 0 <= p < ord.len() ==> 0 <= #[trigger] ord[p] < es.len(),
        forall|p: int| 0 <= p < ord.len() ==> (#[trigger] canon(es[ord[p] as int].1)) is Some,
{
    assert forall|p: int| 0 <= p < ord.len() implies 0 <= #[trigger] ord[p] < es.len() && canon(es[ord[p] as int].1) is Some by {
        let i = ord[p] as int;
        if !(0 <= i < es.len()) || canon(es[i].1) is None {
            assert(canon_entries(es, ord, p + 1) is None);
            lemma_entries_none(es, ord, p + 1, ord.len() as int);
        }
    }
}

/// The first character of a canonical text says what kind of value it is.
proof fn lemma_first_char(v: JsonValue)
    requires
        canon(v) is Some,
    ensures
        ctext(v).len() >= 1,
        v is Null ==> ctext(v)[0] == 'n',
        v matches JsonValue::Bool(b) ==> ctext(v)[0] == (if b { 't' } else { 'f' }),
        v is Number ==> ctext(v)[0] == '-' || is_dec_digit(ctext(v)[0]),
        v is Str ==> ctext(v)[0] == '"',
        v is Array ==> ctext(v)[0] == '[',
        v is Object ==> ctext(v)[0] == '{',
{
    match v {
        JsonValue::Number(n) => match n {
            JsonNumber::PosInt(u) => {
                lemma_nat_decimal_digits(u as nat);
            },
            JsonNumber::NegInt(i) => {
                if i < 0 {
                } else {
                    lemma_nat_decimal_digits(i as nat);
                }
            },
            JsonNumber::Float => {},
        },
        _ => {},
    }
}

/// Nothing, or what may follow a value inside an array or an object.
pub open spec fn ends_value(r: Seq<char>) -> bool {
    r.len() == 0 || r[0] == ',' || r[0] == ']' || r[0] == '}'
}

/// Two values are the same up to the order and repetition of object keys:
/// equal scalars (integers by value), arrays item by item, and objects with
/// the same keys (the first entry of each counting) and equal values.
pub open spec fn json_equiv(a: JsonValue, b: JsonValue) -> bool
    decreases a, 0int,
{
    match a {
        JsonValue::Array(x) => match b {
            JsonValue::Array(y) => x@.len() == y@.len() && items_equiv(x@, y@, x@.len() as int),
            _ => false,
        },
        JsonValue::Object(x) => match b {
            JsonValue::Object(y) => entry_order(x@).len() == entry_order(y@).len() && entries_equiv(
                x@,
                entry_order(x@),
                y@,
                entry_order(y@),
                entry_order(x@).len() as int,
            ),
            _ => false,
        },
        _ => atom_of(a) is Some && atom_of(a) == atom_of(b),
    }
}

/// The first `n` items of two arrays are the same, item by item.
pub open spec fn items_equiv(xs: Seq<JsonValue>, ys: Seq<JsonValue>, n: int) -> bool
    decreases xs, n,
{
    if n <= 0 || n > xs.len() {
        true
    } else {
        items_equiv(xs, ys, n - 1) && json_equiv(xs[n - 1], ys[n - 1])
    }
}

/// The first `n` listed entries of two objects have the same keys and the
/// same values.
pub open spec fn entries_equiv(xs: Seq<(String, JsonValue)>, ox: Seq<usize>, ys: Seq<(String, JsonValue)>, oy: Seq<usize>, n: int) -> bool
    decreases xs, n,
{
    if n <= 0 || n > ox.len() {
        true
    } else {
        let i = ox[n - 1] as int;
        let j = oy[n - 1] as int;
        if 0 <= i < xs.len() && 0 <= j < ys.len() {
            entries_equiv(xs, ox, ys, oy, n - 1) && xs[i].0@ == ys[j].0@ && json_equiv(xs[i].1, ys[j].1)
        } else {
            false
        }
    }
}

proof fn lemma_items_equiv(xs: Seq<JsonValue>, ys: Seq<JsonValue>, n: int)
    requires
        0 <= n <= xs.len(),
        forall|i: int| 0 <= i < n ==> #[trigger] json_equiv(xs[i], ys[i]),
    ensures
        items_equiv(xs, ys, n),
    decreases n,
{
    if n > 0 {
        lemma_items_equiv(xs, ys, n - 1);
        assert(json_equiv(xs[n - 1], ys[n - 1]));
    }
}

proof fn lemma_entries_equiv(xs: Seq<(String, JsonValue)>, ox: Seq<usize>, ys: Seq<(String, JsonValue)>, oy: Seq<usize>, n: int)
    requires
        0 <= n <= ox.len(),
        ox.len() == oy.len(),
        forall|p: int| 0 <= p < ox.len() ==> 0 <= #[trigger] ox[p] < xs.len(),
        forall|p: int| 0 <= p < oy.len() ==> 0 <= #[trigger] oy[p] < ys.len(),
        forall|p: int|
            #![trigger ox[p]]
            0 <= p < n ==> xs[ox[p] as int].0@ == ys[oy[p] as int].0@ && json_equiv(xs[ox[p] as int].1, ys[oy[p] as int].1),
    ensures
        entries_equiv(xs, ox, ys, oy, n),
    decreases n,
{
    if n > 0 {
        lemma_entries_equiv(xs, ox, ys, oy, n - 1);
        assert(0 <= ox[n - 1] < xs.len());
        assert(0 <= oy[n - 1] < ys.len());
        assert(xs[ox[n - 1] as int].0@ == ys[oy[n - 1] as int].0@);
    }
}

proof fn lemma_strip_prefix(p: Seq<char>, x: Seq<char>, y: Seq<char>)
    requires
        p + x == p + y,
    ensures
        x == y,
{
    assert(x =~= (p + x).subrange(p.len() as int, (p + x).len() as int));
    assert(y =~= (p + y).subrange(p.len() as int, (p + y).len() as int));
}

proof fn lemma_join_front(ts: Seq<Seq<char>>, q: Seq<char>)
    requires
        ts.len() > 0,
    ensures
        join(ts) + q == ts[0] + (if ts.len() > 1 { seq![','] + join(ts.drop_first()) + q } else { q }),
{
    if ts.len() > 1 {
        assert(join(ts) + q =~= ts[0] + (seq![','] + join(ts.drop_first()) + q));
    } else {
        assert(join(ts) + q =~= ts[0] + q);
    }
}

/// The integer a number holds.
pub open spec fn num_int(n: JsonNumber) -> int {
    match n {
        JsonNumber::PosInt(u) => u as int,
        JsonNumber::NegInt(i) => i as int,
        JsonNumber::Float => 0,
    }
}

/// A canonical text followed by what may follow a value is read back:
/// the two texts are the same and the values equal up to key order.
proof fn lemma_decode(a: JsonValue, b: JsonValue, r1: Seq<char>, r2: Seq<char>)
    requires
        canon(a) is Some,
        canon(b) is Some,
        ctext(a) + r1 == ctext(b) + r2,
        ends_value(r1),
        ends_value(r2),
    ensures
        ctext(a) == ctext(b),
        json_equiv(a, b),
    decreases a, 1int,
{
    lemma_first_char(a);
    lemma_first_char(b);
    let t = ctext(a) + r1;
    assert(t[0] == ctext(a)[0]);
    assert((ctext(b) + r2)[0] == ctext(b)[0]);
    assert(!is_dec_digit('-') && !is_dec_digit('n') && !is_dec_digit('t') && !is_dec_digit('f'));
    assert(!is_dec_digit('"') && !is_dec_digit('[') && !is_dec_digit('{'));
    match a {
        JsonValue::Null => {
            assert(b is Null);
        },
        JsonValue::Bool(p) => {
            assert(b is Bool);
        },
        JsonValue::Str(s1) => {
            assert(b is Str);
            let s2 = b->Str_0;
            lemma_quote_decode(s1@, s2@, r1, r2);
        },
        JsonValue::Number(n1) => {
            assert(b is Number);
            let n2 = b->Number_0;
            assert(!(n1 is Float) && !(n2 is Float));
            assert(ctext(a) == int_decimal(num_int(n1)));
            assert(ctext(b) == int_decimal(num_int(n2)));
            lemma_int_decimal_prefix(num_int(n1), num_int(n2), r1, r2);
        },
        JsonValue::Array(x) => {
            assert(b is Array);
            lemma_decode_array(a, b, r1, r2);
        },
        JsonValue::Object(x) => {
            assert(b is Object);
            lemma_decode_object(a, b, r1, r2);
        },
    }
}

proof fn lemma_decode_array(a: JsonValue, b: JsonValue, r1: Seq<char>, r2: Seq<char>)
    requires
        a is Array,
        b is Array,
        canon(a) is Some,
        canon(b) is Some,
        ctext(a) + r1 == ctext(b) + r2,
        ends_value(r1),
        ends_value(r2),
    ensures
        ctext(a) == ctext(b),
        json_equiv(a, b),
    decreases a, 0int,
{
    let t = ctext(a) + r1;
    let x = a->Array_0;
    assert(b is Array);
    let y = b->Array_0;
    let xs = x@;
    let ys = y@;
    lemma_items_some(xs);
    lemma_items_some(ys);
    lemma_items_join(xs, xs.len() as int);
    lemma_items_join(ys, ys.len() as int);
    assert(item_texts(xs).take(xs.len() as int) =~= item_texts(xs));
    assert(item_texts(ys).take(ys.len() as int) =~= item_texts(ys));
    let jx = join(item_texts(xs));
    let jy = join(item_texts(ys));
    assert(ctext(a) == seq!['['] + jx + seq![']']);
    assert(ctext(b) == seq!['['] + jy + seq![']']);
    assert(t =~= seq!['['] + (jx + (seq![']'] + r1)));
    assert(ctext(b) + r2 =~= seq!['['] + (jy + (seq![']'] + r2)));
    lemma_strip_prefix(seq!['['], jx + (seq![']'] + r1), jy + (seq![']'] + r2));
    lemma_items_decode(xs, ys, seq![']'] + r1, seq![']'] + r2);
    lemma_items_equiv(xs, ys, xs.len() as int);
}

proof fn lemma_decode_object(a: JsonValue, b: JsonValue, r1: Seq<char>, r2: Seq<char>)
    requires
        a is Object,
        b is Object,
        canon(a) is Some,
        canon(b) is Some,
        ctext(a) + r1 == ctext(b) + r2,
        ends_value(r1),
        ends_value(r2),
    ensures
        ctext(a) == ctext(b),
        json_equiv(a, b),
    decreases a, 0int,
{
    let t = ctext(a) + r1;
    let x = a->Object_0;
    assert(b is Object);
    let y = b->Object_0;
    let xs = x@;
    let ys = y@;
    assert(xs.len() == x.len());
    assert(ys.len() == y.len());
    let _ = lemma_order_exists(xs);
    let _ = lemma_order_exists(ys);
    let ox = entry_order(xs);
    let oy = entry_order(ys);
    lemma_entries_some(xs, ox);
    lemma_entries_some(ys, oy);
    lemma_entries_join(xs, ox, ox.len() as int);
    lemma_entries_join(ys, oy, oy.len() as int);
    assert(entry_texts(xs, ox).take(ox.len() as int) =~= entry_texts(xs, ox));
    assert(entry_texts(ys, oy).take(oy.len() as int) =~= entry_texts(ys, oy));
    let jx = join(entry_texts(xs, ox));
    let jy = join(entry_texts(ys, oy));
    assert(ctext(a) == seq!['{'] + jx + seq!['}']);
    assert(ctext(b) == seq!['{'] + jy + seq!['}']);
    assert(t =~= seq!['{'] + (jx + (seq!['}'] + r1)));
    assert(ctext(b) + r2 =~= seq!['{'] + (jy + (seq!['}'] + r2)));
    lemma_strip_prefix(seq!['{'], jx + (seq!['}'] + r1), jy + (seq!['}'] + r2));
    lemma_entries_decode(xs, ox, ys, oy, seq!['}'] + r1, seq!['}'] + r2);
    lemma_entries_equiv(xs, ox, ys, oy, ox.len() as int);
}

proof fn lemma_items_decode(xs: Seq<JsonValue>, ys: Seq<JsonValue>, q1: Seq<char>, q2: Seq<char>)
    requires
        forall|i: int| 0 <= i < xs.len() ==> (#[trigger] canon(xs[i])) is Some,
        forall|i: int| 0 <= i < ys.len() ==> (#[trigger] canon(ys[i])) is Some,
        join(item_texts(xs)) + q1 == join(item_texts(ys)) + q2,
        q1.len() > 0 && q1[0] == ']',
        q2.len() > 0 && q2[0] == ']',
    ensures
        xs.len() == ys.len(),
        forall|i: int| 0 <= i < xs.len() ==> #[trigger] json_equiv(xs[i], ys[i]),
        join(item_texts(xs)) == join(item_texts(ys)),
    decreases xs, 2int,
{
    let ix = item_texts(xs);
    let iy = item_texts(ys);
    if xs.len() == 0 || ys.len() == 0 {
        if xs.len() > 0 {
            lemma_first_char(xs[0]);
            lemma_join_front(ix, q1);
            assert((join(ix) + q1)[0] == ctext(xs[0])[0]);
            assert(join(iy) =~= Seq::<char>::empty());
            assert((join(iy) + q2)[0] == ']');
        }
        if ys.len() > 0 {
            lemma_first_char(ys[0]);
            lemma_join_front(iy, q2);
            assert((join(iy) + q2)[0] == ctext(ys[0])[0]);
            assert(join(ix) =~= Seq::<char>::empty());
            assert((join(ix) + q1)[0] == ']');
        }
    } else {
        lemma_join_front(ix, q1);
        lemma_join_front(iy, q2);
        let rx = if ix.len() > 1 { seq![','] + join(ix.drop_first()) + q1 } else { q1 };
        let ry = if iy.len() > 1 { seq![','] + join(iy.drop_first()) + q2 } else { q2 };
        assert(ix[0] == ctext(xs[0]) && iy[0] == ctext(ys[0]));
        assert(rx[0] == ',' || rx[0] == ']');
        assert(ry[0] == ',' || ry[0] == ']');
        lemma_decode(xs[0], ys[0], rx, ry);
        lemma_strip_prefix(ctext(xs[0]), rx, ry);
        if xs.len() > 1 && ys.len() > 1 {
            let xs1 = xs.subrange(1, xs.len() as int);
            let ys1 = ys.subrange(1, ys.len() as int);
            assert(ix.drop_first() =~= item_texts(xs1));
            assert(iy.drop_first() =~= item_texts(ys1));
            assert(rx =~= seq![','] + (join(ix.drop_first()) + q1));
            assert(ry =~= seq![','] + (join(iy.drop_first()) + q2));
            lemma_strip_prefix(seq![','], join(ix.drop_first()) + q1, join(iy.drop_first()) + q2);
            assert forall|i: int| 0 <= i < xs1.len() implies (#[trigger] canon(xs1[i])) is Some by {
                assert(xs1[i] == xs[i + 1]);
            }
            assert forall|i: int| 0 <= i < ys1.len() implies (#[trigger] canon(ys1[i])) is Some by {
                assert(ys1[i] == ys[i + 1]);
            }
            lemma_items_decode(xs1, ys1, q1, q2);
            assert forall|i: int| 0 <= i < xs.len() implies #[trigger] json_equiv(xs[i], ys[i]) by {
                if i > 0 {
                    assert(xs1[i - 1] == xs[i] && ys1[i - 1] == ys[i]);
                }
            }
        } else if xs.len() > 1 {
            assert(rx[0] == ',' && ry[0] == ']');
        } else if ys.len() > 1 {
            assert(rx[0] == ']' && ry[0] == ',');
        } else {
            assert(join(ix) == ctext(xs[0]));
            assert(join(iy) == ctext(ys[0]));
        }
    }
}

#[verifier::rlimit(60)]
proof fn lemma_entries_decode(
    es1: Seq<(String, JsonValue)>,
    o1: Seq<usize>,
    es2: Seq<(String, JsonValue)>,
    o2: Seq<usize>,
    q1: Seq<char>,
    q2: Seq<char>,
)
    requires
        forall|p: int| 0 <= p < o1.len() ==> 0 <= #[trigger] o1[p] < es1.len(),
        forall|p: int| 0 <= p < o1.len() ==> (#[trigger] canon(es1[o1[p] as int].1)) is Some,
        forall|p: int| 0 <= p < o2.len() ==> 0 <= #[trigger] o2[p] < es2.len(),
        forall|p: int| 0 <= p < o2.len() ==> (#[trigger] canon(es2[o2[p] as int].1)) is Some,
        join(entry_texts(es1, o1)) + q1 == join(entry_texts(es2, o2)) + q2,
        q1.len() > 0 && q1[0] == '}',
        q2.len() > 0 && q2[0] == '}',
    ensures
        o1.len() == o2.len(),
        forall|p: int|
            #![trigger o1[p]]
            0 <= p < o1.len() ==> es1[o1[p] as int].0@ == es2[o2[p] as int].0@ && json_equiv(
                es1[o1[p] as int].1,
                es2[o2[p] as int].1,
            ),
        join(entry_texts(es1, o1)) == join(entry_texts(es2, o2)),
    decreases es1, o1.len() + 2,
{
    let e1 = entry_texts(es1, o1);
    let e2 = entry_texts(es2, o2);
    if o1.len() == 0 || o2.len() == 0 {
        if o1.len() > 0 {
            lemma_join_front(e1, q1);
            assert((join(e1) + q1)[0] == e1[0][0]);
            assert(e1[0][0] == '"');
            assert(join(e2) =~= Seq::<char>::empty());
            assert((join(e2) + q2)[0] == '}');
        }
        if o2.len() > 0 {
            lemma_join_front(e2, q2);
            assert((join(e2) + q2)[0] == e2[0][0]);
            assert(e2[0][0] == '"');
            assert(join(e1) =~= Seq::<char>::empty());
            assert((join(e1) + q1)[0] == '}');
        }
    } else {
        lemma_join_front(e1, q1);
        lemma_join_front(e2, q2);
        let rx = if e1.len() > 1 { seq![','] + join(e1.drop_first()) + q1 } else { q1 };
        let ry = if e2.len() > 1 { seq![','] + join(e2.drop_first()) + q2 } else { q2 };
        let i1 = o1[0] as int;
        let i2 = o2[0] as int;
        let k1 = es1[i1].0@;
        let k2 = es2[i2].0@;
        let v1 = es1[i1].1;
        let v2 = es2[i2].1;
        assert(e1[0] == quote(k1) + seq![':'] + ctext(v1));
        assert(e2[0] == quote(k2) + seq![':'] + ctext(v2));
        assert(e1[0] + rx =~= quote(k1) + (seq![':'] + (ctext(v1) + rx)));
        assert(e2[0] + ry =~= quote(k2) + (seq![':'] + (ctext(v2) + ry)));
        lemma_quote_decode(k1, k2, seq![':'] + (ctext(v1) + rx), seq![':'] + (ctext(v2) + ry));
        lemma_strip_prefix(seq![':'], ctext(v1) + rx, ctext(v2) + ry);
        assert(rx[0] == ',' || rx[0] == '}');
        assert(ry[0] == ',' || ry[0] == '}');
        assert(canon(es1[o1[0] as int].1) is Some);
        assert(canon(es2[o2[0] as int].1) is Some);
        lemma_decode(v1, v2, rx, ry);
        lemma_strip_prefix(ctext(v1), rx, ry);
        if o1.len() > 1 && o2.len() > 1 {
            let p1 = o1.subrange(1, o1.len() as int);
            let p2 = o2.subrange(1, o2.len() as int);
            assert(e1.drop_first() =~= entry_texts(es1, p1));
            assert(e2.drop_first() =~= entry_texts(es2, p2));
            assert(rx =~= seq![','] + (join(e1.drop_first()) + q1));
            assert(ry =~= seq![','] + (join(e2.drop_first()) + q2));
            lemma_strip_prefix(seq![','], join(e1.drop_first()) + q1, join(e2.drop_first()) + q2);
            assert forall|p: int| 0 <= p < p1.len() implies 0 <= #[trigger] p1[p] < es1.len() && canon(es1[p1[p] as int].1) is Some by {
                assert(p1[p] == o1[p + 1]);
            }
            assert forall|p: int| 0 <= p < p2.len() implies 0 <= #[trigger] p2[p] < es2.len() && canon(es2[p2[p] as int].1) is Some by {
                assert(p2[p] == o2[p + 1]);
            }
            lemma_entries_decode(es1, p1, es2, p2, q1, q2);
            assert forall|p: int| #![trigger o1[p]] 0 <= p < o1.len() implies es1[o1[p] as int].0@ == es2[o2[p] as int].0@
                && json_equiv(es1[o1[p] as int].1, es2[o2[p] as int].1) by {
                if p > 0 {
                    assert(p1[p - 1] == o1[p] && p2[p - 1] == o2[p]);
                }
            }
        } else if o1.len() > 1 {
            assert(rx[0] == ',' && ry[0] == '}');
        } else if o2.len() > 1 {
            assert(rx[0] == '}' && ry[0] == ',');
        } else {
            assert(join(e1) == e1[0]);
            assert(join(e2) == e2[0]);
            assert forall|p: int| #![trigger o1[p]] 0 <= p < o1.len() implies es1[o1[p] as int].0@ == es2[o2[p] as int].0@
                && json_equiv(es1[o1[p] as int].1, es2[o2[p] as int].1) by {
                assert(p == 0);
            }
        }
    }
}

/// Values equal up to key order have the same canonical text.
proof fn lemma_equiv_canon(a: JsonValue, b: JsonValue)
    requires
        json_equiv(a, b),
    ensures
        canon(a) == canon(b),
    decreases a, 1int,
{
    match a {
        JsonValue::Array(x) => {
            let y = b->Array_0;
            lemma_items_canon(x@, y@, x@.len() as int);
        },
        JsonValue::Object(x) => {
            let y = b->Object_0;
            lemma_entries_canon(x@, entry_order(x@), y@, entry_order(y@), entry_order(x@).len() as int);
        },
        JsonValue::Number(n) => {
            let m = b->Number_0;
            if n is PosInt && m is NegInt {
                assert(int_decimal(m->NegInt_0 as int) == nat_decimal(n->PosInt_0 as nat));
            }
            if n is NegInt && m is PosInt {
                assert(int_decimal(n->NegInt_0 as int) == nat_decimal(m->PosInt_0 as nat));
            }
        },
        _ => {},
    }
}

proof fn lemma_items_canon(xs: Seq<JsonValue>, ys: Seq<JsonValue>, n: int)
    requires
        xs.len() == ys.len(),
        0 <= n <= xs.len(),
        items_equiv(xs, ys, n),
    ensures
        canon_items(xs, n) == canon_items(ys, n),
    decreases xs, n,
{
    if n > 0 {
        lemma_items_canon(xs, ys, n - 1);
        lemma_equiv_canon(xs[n - 1], ys[n - 1]);
    }
}

proof fn lemma_entries_canon(
    xs: Seq<(String, JsonValue)>,
    ox: Seq<usize>,
    ys: Seq<(String, JsonValue)>,
    oy: Seq<usize>,
    n: int,
)
    requires
        ox.len() == oy.len(),
        0 <= n <= ox.len(),
        entries_equiv(xs, ox, ys, oy, n),
    ensures
        canon_entries(xs, ox, n) == canon_entries(ys, oy, n),
    decreases xs, n,
{
    if n > 0 {
        lemma_entries_canon(xs, ox, ys, oy, n - 1);
        lemma_equiv_canon(xs[ox[n - 1] as int].1, ys[oy[n - 1] as int].1);
    }
}

/// Canonical text tells values apart exactly up to key order: two values
/// without floats have the same canonical text, and so the same canonical
/// bytes, exactly when they are equal up to the order (and repetition) of
/// object keys: the same scalars (integers by value), arrays item by item,
/// and objects with the same keys holding equal values.
pub proof fn law_canon_identifies_values(a: JsonValue, b: JsonValue)
    requires
        canon(a) is Some,
        canon(b) is Some,
    ensures
        canon(a) == canon(b) <==> json_equiv(a, b),
        vstd::utf8::encode_utf8(ctext(a)) == vstd::utf8::encode_utf8(ctext(b)) <==> json_equiv(a, b),
{
    if canon(a) == canon(b) {
        assert(ctext(a) + Seq::<char>::empty() =~= ctext(b) + Seq::<char>::empty());
        lemma_decode(a, b, Seq::empty(), Seq::empty());
    }
    if json_equiv(a, b) {
        lemma_equiv_canon(a, b);
    }
    if vstd::utf8::encode_utf8(ctext(a)) == vstd::utf8::encode_utf8(ctext(b)) {
        vstd::utf8::encode_utf8_decode_utf8(ctext(a));
        vstd::utf8::encode_utf8_decode_utf8(ctext(b));
        assert(ctext(a) == ctext(b));
        assert(ctext(a) + Seq::<char>::empty() =~= ctext(b) + Seq::<char>::empty());
        lemma_decode(a, b, Seq::empty(), Seq::empty());
    }
}

} // verus!
