//! What the decoder gives back for text that an encoder of its scalar and
//! list shapes writes: the values that were written.
use vstd::prelude::*;
use crate::wire::{
    decode, digit_value, digits_from, field_value, ident_end, is_digit, list_items, lookup_field, number_token,
    overflow_digit, root_entries, scalar_token, str_end, value_close, value_open, value_start, with_prefix, lookup_sub,
    map_entries, DeError, Decimal as Dec, Field, FieldKind, FieldValueView, Number, ScalarKind, ScalarView, SubField,
};

verus! {

/// The decimal digits of `n`, most significant first.
pub open spec fn decimal(n: nat) -> Seq<u8>
    decreases n,
{
    if n < 10 {
        seq![(48 + n) as u8]
    } else {
        decimal(n / 10).push((48 + n % 10) as u8)
    }
}

/// The value of the digits `q` appended to `acc`.
pub open spec fn fold_digits(acc: int, q: Seq<u8>) -> int
    decreases q.len(),
{
    if q.len() == 0 {
        acc
    } else {
        fold_digits(acc * 10 + digit_value(q[0]), q.drop_first())
    }
}

pub open spec fn all_digits(q: Seq<u8>) -> bool {
    forall|i: int| 0 <= i < q.len() ==> is_digit(#[trigger] q[i])
}

/// Whether a number token may end before `s[j]`: the text ends, or the byte
/// is none of a digit, `.` and `%`.
pub open spec fn ends_number(s: Seq<u8>, j: int) -> bool {
    j >= s.len() || (!is_digit(s[j]) && s[j] != 46u8 && s[j] != 37u8)
}

proof fn lemma_fold_push(acc: int, a: Seq<u8>, d: u8)
    ensures
        fold_digits(acc, a.push(d)) == fold_digits(acc, a) * 10 + digit_value(d),
    decreases a.len(),
{
    if a.len() == 0 {
        assert(a.push(d)[0] == d);
        assert(a.push(d).drop_first() =~= seq![]);
        assert(fold_digits(acc * 10 + digit_value(d), seq![]) == acc * 10 + digit_value(d));
    } else {
        assert(a.push(d)[0] == a[0]);
        assert(a.push(d).drop_first() =~= a.drop_first().push(d));
        lemma_fold_push(acc * 10 + digit_value(a[0]), a.drop_first(), d);
    }
}

proof fn lemma_fold_monotone(acc: int, q: Seq<u8>)
    requires
        acc >= 0,
        all_digits(q),
    ensures
        fold_digits(acc, q) >= acc,
    decreases q.len(),
{
    if q.len() > 0 {
        lemma_fold_monotone(acc * 10 + digit_value(q[0]), q.drop_first());
    }
}

proof fn lemma_decimal(n: nat)
    ensures
        all_digits(decimal(n)),
        decimal(n).len() >= 1,
        fold_digits(0, decimal(n)) == n,
    decreases n,
{
    if n >= 10 {
        lemma_decimal(n / 10);
        let d = (48 + n % 10) as u8;
        assert(digit_value(d) == n % 10);
        lemma_fold_push(0, decimal(n / 10), d);
        assert(n == (n / 10) * 10 + n % 10);
        assert forall|i: int| 0 <= i < decimal(n).len() implies is_digit(#[trigger] decimal(n)[i]) by {
            if i < decimal(n / 10).len() {
                assert(decimal(n)[i] == decimal(n / 10)[i]);
            }
        }
    } else {
        let d = (48 + n) as u8;
        assert(decimal(n) == seq![d]);
        assert(decimal(n)[0] == d);
        assert(decimal(n).drop_first() =~= seq![]);
        assert(fold_digits(digit_value(d), seq![]) == digit_value(d));
    }
}

/// Scanning a run of digits that ends at `j` gives its value.
proof fn lemma_scan(s: Seq<u8>, k: int, j: int, acc: int)
    requires
        0 <= k <= j <= s.len(),
        all_digits(s.subrange(k, j)),
        j == s.len() || !is_digit(s[j]),
        0 <= acc,
        fold_digits(acc, s.subrange(k, j)) <= u64::MAX,
    ensures
        digits_from(s, k, acc) == (fold_digits(acc, s.subrange(k, j)), j),
        overflow_digit(s, k, acc) is None,
    decreases j - k,
{
    if k < j {
        let q = s.subrange(k, j);
        assert(q[0] == s[k]);
        assert(q.drop_first() =~= s.subrange(k + 1, j));
        assert(all_digits(s.subrange(k + 1, j))) by {
            assert forall|i: int| 0 <= i < s.subrange(k + 1, j).len() implies is_digit(
                #[trigger] s.subrange(k + 1, j)[i],
            ) by {
                assert(s.subrange(k + 1, j)[i] == q[i + 1]);
            }
        }
        lemma_fold_monotone(acc * 10 + digit_value(s[k]), s.subrange(k + 1, j));
        lemma_scan(s, k + 1, j, acc * 10 + digit_value(s[k]));
    } else {
        assert(s.subrange(k, j) =~= seq![]);
    }
}

/// The decimal text of `n` stands in `s` at `k`, and nothing after it can
/// continue a number.
pub open spec fn decimal_at(s: Seq<u8>, k: int, n: nat) -> bool {
    0 <= k && k + decimal(n).len() <= s.len() && s.subrange(k, k + decimal(n).len()) == decimal(n)
        && ends_number(s, k + decimal(n).len())
}

proof fn lemma_number_at(s: Seq<u8>, k: int, n: u64)
    requires
        decimal_at(s, k, n as nat),
    ensures
        number_token(s, k) == Ok::<(Number, int), DeError>((Number::U64(n), k + decimal(n as nat).len())),
{
    let d = decimal(n as nat);
    let j = k + d.len();
    lemma_decimal(n as nat);
    assert(s[k] == d[0]);
    assert(s.subrange(k + 1, j) =~= d.drop_first());
    assert(all_digits(s.subrange(k + 1, j))) by {
        assert forall|i: int| 0 <= i < s.subrange(k + 1, j).len() implies is_digit(
            #[trigger] s.subrange(k + 1, j)[i],
        ) by {
            assert(s.subrange(k + 1, j)[i] == d[i + 1]);
        }
    }
    assert(fold_digits(digit_value(s[k]), s.subrange(k + 1, j)) == n);
    lemma_scan(s, k + 1, j, digit_value(s[k]));
}

/// Unsigned integers: the decimal text of any `u64`, followed by anything
/// that cannot continue a number, reads back as that integer and ends where
/// its digits end.
pub proof fn lemma_unsigned_round_trip(n: u64, t: Seq<u8>)
    requires
        ends_number(decimal(n as nat) + t, decimal(n as nat).len() as int),
    ensures
        number_token(decimal(n as nat) + t, 0) == Ok::<(Number, int), DeError>(
            (Number::U64(n), decimal(n as nat).len() as int),
        ),
{
    let d = decimal(n as nat);
    assert((d + t).subrange(0, d.len() as int) =~= d);
    lemma_number_at(d + t, 0, n);
}

/// Each integer of `ys` after a space, as a list continues after its first
/// item.
pub open spec fn list_tail(ys: Seq<u64>) -> Seq<u8>
    decreases ys.len(),
{
    if ys.len() == 0 {
        seq![]
    } else {
        seq![32u8] + decimal(ys[0] as nat) + list_tail(ys.drop_first())
    }
}

/// A list of unsigned integers as the grammar writes it: separated by
/// single spaces.
pub open spec fn unsigned_list(xs: Seq<u64>) -> Seq<u8> {
    if xs.len() == 0 {
        seq![]
    } else {
        decimal(xs[0] as nat) + list_tail(xs.drop_first())
    }
}

pub open spec fn unsigned_views(xs: Seq<u64>) -> Seq<ScalarView> {
    xs.map_values(|x: u64| ScalarView::Unsigned(x))
}

proof fn lemma_tail_at(s: Seq<u8>, p: int, ys: Seq<u64>)
    requires
        0 <= p,
        p + list_tail(ys).len() < s.len(),
        s.subrange(p, p + list_tail(ys).len()) == list_tail(ys),
        s[p + list_tail(ys).len()] == 93u8,
    ensures
        list_items(s, p, ScalarKind::Unsigned, false) == Ok::<(Seq<ScalarView>, int), DeError>(
            (unsigned_views(ys), p + list_tail(ys).len()),
        ),
    decreases ys.len(),
{
    if ys.len() == 0 {
        assert(unsigned_views(ys) =~= seq![]);
    } else {
        let d = decimal(ys[0] as nat);
        let rest = list_tail(ys.drop_first());
        let l = list_tail(ys);
        assert(l =~= seq![32u8] + d + rest);
        lemma_decimal(ys[0] as nat);
        assert(s[p] == l[0]);
        assert(s[p + 1] == l[1]);
        assert(l[1] == d[0]);
        let e = p + 1 + d.len();
        assert(s.subrange(p + 1, e) =~= d) by {
            assert forall|i: int| 0 <= i < d.len() implies s.subrange(p + 1, e)[i] == d[i] by {
                assert(s.subrange(p + 1, e)[i] == s[p + 1 + i]);
                assert(s[p + 1 + i] == l[1 + i]);
            }
        }
        assert(s.subrange(e, e + rest.len()) =~= rest) by {
            assert forall|i: int| 0 <= i < rest.len() implies s.subrange(e, e + rest.len())[i] == rest[i] by {
                assert(s[e + i] == l[1 + d.len() + i]);
            }
        }
        assert(ends_number(s, e)) by {
            if rest.len() > 0 {
                assert(s[e] == l[1 + d.len() as int]);
                assert(rest[0] == 32u8);
            }
        }
        lemma_number_at(s, p + 1, ys[0]);
        lemma_tail_at(s, e, ys.drop_first());
        assert(unsigned_views(ys) =~= seq![ScalarView::Unsigned(ys[0])] + unsigned_views(ys.drop_first()));
    }
}

/// Lists of unsigned integers: any list written with single spaces and
/// closed by `]` reads back as the same integers, in order, and ends at the
/// bracket.
pub proof fn lemma_unsigned_list_round_trip(xs: Seq<u64>, t: Seq<u8>)
    ensures
        list_items(unsigned_list(xs) + seq![93u8] + t, 0, ScalarKind::Unsigned, true) == Ok::<
            (Seq<ScalarView>, int),
            DeError,
        >((unsigned_views(xs), unsigned_list(xs).len() as int)),
{
    let s = unsigned_list(xs) + seq![93u8] + t;
    if xs.len() == 0 {
        assert(s[0] == 93u8);
        assert(unsigned_views(xs) =~= seq![]);
    } else {
        let d = decimal(xs[0] as nat);
        let rest = list_tail(xs.drop_first());
        lemma_decimal(xs[0] as nat);
        assert(s.subrange(0, d.len() as int) =~= d);
        assert(s.subrange(d.len() as int, d.len() + rest.len() as int) =~= rest);
        assert(s[d.len() + rest.len() as int] == 93u8);
        assert(ends_number(s, d.len() as int)) by {
            if rest.len() > 0 {
                assert(s[d.len() as int] == rest[0]);
            }
        }
        assert(s[0] == d[0]);
        lemma_number_at(s, 0, xs[0]);
        lemma_tail_at(s, d.len() as int, xs.drop_first());
        assert(unsigned_views(xs) =~= seq![ScalarView::Unsigned(xs[0])] + unsigned_views(xs.drop_first()));
    }
}

/// Whether `v` can be written as a string value: no `[`, `]` or `,`, and no
/// trailing space (which the decoder drops before a closing bracket).
pub open spec fn writable_text(v: Seq<u8>) -> bool {
    (forall|i: int| 0 <= i < v.len() ==> #[trigger] v[i] != 91u8 && v[i] != 93u8 && v[i] != 44u8) && (v.len()
        == 0 || v.last() != 32u8)
}

proof fn lemma_text_scan(v: Seq<u8>, t: Seq<u8>, k: int)
    requires
        writable_text(v),
        0 <= k <= v.len(),
        t.len() > 0,
        t[0] == 93u8 || t[0] == 91u8 || t[0] == 44u8,
    ensures
        str_end(v + t, k) == (v.len() as int, 0int),
    decreases v.len() - k,
{
    let s = v + t;
    if k < v.len() {
        assert(s[k] == v[k]);
        if k + 1 < v.len() {
            assert(s[k + 1] == v[k + 1]);
        }
        lemma_text_scan(v, t, k + 1);
    } else {
        assert(s[k] == t[0]);
    }
}

/// Strings: a writable string value, followed by a closing bracket or
/// another delimiter, reads back as itself and ends where it ends.
pub proof fn lemma_text_round_trip(v: Seq<u8>, t: Seq<u8>)
    requires
        writable_text(v),
        t.len() > 0,
        t[0] == 93u8 || t[0] == 91u8 || t[0] == 44u8,
    ensures
        scalar_token(v + t, 0, ScalarKind::Text) == Ok::<(ScalarView, int), DeError>(
            (ScalarView::Text(v), v.len() as int),
        ),
{
    lemma_text_scan(v, t, 0);
    assert((v + t).subrange(0, v.len() as int) =~= v);
}


/// Whether a key can be written in front of a bracket: none of `[`, `:`,
/// `]`, `,`, where a key ends.
pub open spec fn writable_key(k: Seq<u8>) -> bool {
    forall|i: int|
        0 <= i < k.len() ==> #[trigger] k[i] != 91u8 && k[i] != 58u8 && k[i] != 93u8 && k[i] != 44u8
}

/// The decimal text of a signed integer: a `-` before the digits of a
/// negative one.
pub open spec fn signed_text(v: i64) -> Seq<u8> {
    if v >= 0 {
        decimal(v as nat)
    } else {
        seq![45u8] + decimal((-(v as int)) as nat)
    }
}

/// Signed integers: the text of any `i64`, followed by anything that cannot
/// continue a number, reads back as that integer in a signed field.
pub proof fn lemma_signed_at(s: Seq<u8>, k: int, v: i64)
    requires
        0 <= k,
        k + signed_text(v).len() <= s.len(),
        s.subrange(k, k + signed_text(v).len()) == signed_text(v),
        ends_number(s, k + signed_text(v).len()),
    ensures
        scalar_token(s, k, ScalarKind::Signed) == Ok::<(ScalarView, int), DeError>(
            (ScalarView::Signed(v), k + signed_text(v).len()),
        ),
{
    let t = signed_text(v);
    if v >= 0 {
        lemma_number_at(s, k, v as u64);
    } else {
        let m = (-(v as int)) as u64;
        let d = decimal(m as nat);
        lemma_decimal(m as nat);
        assert(s[k] == 45u8) by {
            assert(s.subrange(k, k + t.len())[0] == s[k]);
        }
        assert(s.subrange(k + 1, k + 1 + d.len()) =~= d) by {
            assert forall|i: int| 0 <= i < d.len() implies s.subrange(k + 1, k + 1 + d.len())[i] == d[i] by {
                assert(s.subrange(k, k + t.len())[1 + i] == s[k + 1 + i]);
                assert(t[1 + i] == d[i]);
            }
        }
        lemma_number_at(s, k + 1, m);
        assert(is_digit(s[k + 1])) by {
            assert(s.subrange(k + 1, k + 1 + d.len())[0] == s[k + 1]);
        }
    }
}

/// Whether a decoded value has a form the encoder writes for `kind`:
/// integers, writable strings, lists of integers, and inline maps of
/// integers.
pub open spec fn writable_value(v: FieldValueView, kind: FieldKind) -> bool {
    match v {
        FieldValueView::Scalar(ScalarView::Unsigned(_)) => kind == FieldKind::Scalar(ScalarKind::Unsigned),
        FieldValueView::Scalar(ScalarView::Signed(_)) => kind == FieldKind::Scalar(ScalarKind::Signed),
        FieldValueView::Scalar(ScalarView::Text(t)) => kind == FieldKind::Scalar(ScalarKind::Text)
            && writable_text(t),
        FieldValueView::List(items) => kind matches FieldKind::List(k) && writable_items(items, k),
        FieldValueView::Inline(es) => kind matches FieldKind::Inline(subs) && writable_map(es, subs@),
        _ => false,
    }
}

/// The text of a value inside its brackets.
pub open spec fn encode_value(v: FieldValueView) -> Seq<u8> {
    match v {
        FieldValueView::Scalar(ScalarView::Unsigned(n)) => decimal(n as nat),
        FieldValueView::Scalar(ScalarView::Signed(v)) => signed_text(v),
        FieldValueView::Scalar(ScalarView::Text(t)) => t,
        FieldValueView::List(items) => int_list(items),
        FieldValueView::Inline(es) => map_text(es),
        _ => seq![],
    }
}

/// One entry as `key[value]`.
pub open spec fn encode_entry(e: (Seq<u8>, FieldValueView)) -> Seq<u8> {
    e.0 + seq![91u8] + encode_value(e.1) + seq![93u8]
}

/// Each entry after a space, as a record continues after its first entry.
pub open spec fn record_tail(es: Seq<(Seq<u8>, FieldValueView)>) -> Seq<u8>
    decreases es.len(),
{
    if es.len() == 0 {
        seq![]
    } else {
        seq![32u8] + encode_entry(es[0]) + record_tail(es.drop_first())
    }
}

/// A record as the grammar writes it: `key[value]` entries separated by
/// single spaces.
pub open spec fn encode_record(es: Seq<(Seq<u8>, FieldValueView)>) -> Seq<u8> {
    if es.len() == 0 {
        seq![]
    } else {
        encode_entry(es[0]) + record_tail(es.drop_first())
    }
}

/// Whether every entry has a writable key that the schema names, and a
/// value written in the form of the kind the schema gives it.
pub open spec fn writable_record(es: Seq<(Seq<u8>, FieldValueView)>, fields: Seq<Field>) -> bool {
    forall|i: int|
        0 <= i < es.len() ==> writable_key((#[trigger] es[i]).0) && (lookup_field(fields, es[i].0, 0) matches Some(
            k,
        ) && writable_value(es[i].1, k))
}

proof fn lemma_ident_scan(s: Seq<u8>, k: int, j: int)
    requires
        0 <= k <= j < s.len(),
        s[j] == 91u8 || s[j] == 58u8,
        forall|i: int| k <= i < j ==> s[i] != 91u8 && s[i] != 58u8 && s[i] != 93u8 && s[i] != 44u8,
    ensures
        ident_end(s, k) == j,
    decreases j - k,
{
    if k < j {
        lemma_ident_scan(s, k + 1, j);
    }
}

/// The text of an integer scalar.
pub open spec fn scalar_text(x: ScalarView) -> Seq<u8> {
    match x {
        ScalarView::Unsigned(n) => decimal(n as nat),
        ScalarView::Signed(v) => signed_text(v),
        _ => seq![],
    }
}

/// Whether an inline map value is an integer of the kind its key has.
pub open spec fn writable_scalar(x: ScalarView, k: ScalarKind) -> bool {
    (x is Unsigned && k == ScalarKind::Unsigned) || (x is Signed && k == ScalarKind::Signed)
}

/// One inline map entry as `key:value`.
pub open spec fn map_entry_text(e: (Seq<u8>, ScalarView)) -> Seq<u8> {
    e.0 + seq![58u8] + scalar_text(e.1)
}

/// Each entry after a space, as an inline map continues after its first.
pub open spec fn map_tail(es: Seq<(Seq<u8>, ScalarView)>) -> Seq<u8>
    decreases es.len(),
{
    if es.len() == 0 {
        seq![]
    } else {
        seq![32u8] + map_entry_text(es[0]) + map_tail(es.drop_first())
    }
}

/// An inline map as the grammar writes it: `key:value` entries separated by
/// single spaces.
pub open spec fn map_text(es: Seq<(Seq<u8>, ScalarView)>) -> Seq<u8> {
    if es.len() == 0 {
        seq![]
    } else {
        map_entry_text(es[0]) + map_tail(es.drop_first())
    }
}

/// Whether every inline map entry has a writable key that the schema names
/// and an integer value of the kind it gives.
pub open spec fn writable_map(es: Seq<(Seq<u8>, ScalarView)>, subs: Seq<SubField>) -> bool {
    forall|i: int|
        0 <= i < es.len() ==> writable_key((#[trigger] es[i]).0) && (lookup_sub(subs, es[i].0, 0) matches Some(k)
            && writable_scalar(es[i].1, k))
}

proof fn lemma_writable_map_rest(es: Seq<(Seq<u8>, ScalarView)>, subs: Seq<SubField>)
    requires
        writable_map(es, subs),
        es.len() > 0,
    ensures
        writable_map(es.drop_first(), subs),
        writable_key(es[0].0),
        lookup_sub(subs, es[0].0, 0) matches Some(k) && writable_scalar(es[0].1, k),
{
    assert forall|i: int| 0 <= i < es.drop_first().len() implies writable_key((#[trigger] es.drop_first()[i]).0)
        && (lookup_sub(subs, es.drop_first()[i].0, 0) matches Some(k) && writable_scalar(es.drop_first()[i].1, k)) by {
        assert(es.drop_first()[i] == es[i + 1]);
    }
}

/// Decoding one inline map entry written at `q`.
#[verifier::rlimit(100)]
proof fn lemma_map_entry_at(s: Seq<u8>, q: int, e: (Seq<u8>, ScalarView), subs: Seq<SubField>)
    requires
        0 <= q,
        q + map_entry_text(e).len() < s.len(),
        s.subrange(q, q + map_entry_text(e).len()) == map_entry_text(e),
        s[q + map_entry_text(e).len()] == 32u8 || s[q + map_entry_text(e).len()] == 93u8,
        writable_key(e.0),
        lookup_sub(subs, e.0, 0) matches Some(k) && writable_scalar(e.1, k),
    ensures
        ident_end(s, q) == q + e.0.len(),
        s.subrange(q, q + e.0.len()) == e.0,
        value_start(s, q + e.0.len()) == Ok::<int, DeError>(q + e.0.len() + 1),
        scalar_token(s, q + e.0.len() + 1, lookup_sub(subs, e.0, 0)->0) == Ok::<(ScalarView, int), DeError>(
            (e.1, q + map_entry_text(e).len()),
        ),
        s[q] != 93u8,
        e.0.len() > 0 ==> s[q] == e.0[0],
        e.0.len() == 0 ==> s[q] == 58u8,
{
    let key = e.0;
    let v = scalar_text(e.1);
    let w = map_entry_text(e);
    let b = q + key.len();
    assert(w =~= key + seq![58u8] + v);
    assert(forall|i: int| 0 <= i < w.len() ==> s[q + i] == #[trigger] w[i]) by {
        assert forall|i: int| 0 <= i < w.len() implies s[q + i] == #[trigger] w[i] by {
            assert(s.subrange(q, q + w.len())[i] == s[q + i]);
        }
    }
    assert(s[b] == 58u8) by {
        assert(w[key.len() as int] == 58u8);
    }
    assert forall|i: int| q <= i < b implies s[i] != 91u8 && s[i] != 58u8 && s[i] != 93u8 && s[i] != 44u8 by {
        assert(w[i - q] == key[i - q]);
    }
    lemma_ident_scan(s, q, b);
    assert(s.subrange(q, b) =~= key) by {
        assert forall|i: int| 0 <= i < key.len() implies s.subrange(q, b)[i] == key[i] by {
            assert(w[i] == key[i]);
        }
    }
    if key.len() > 0 {
        assert(w[0] == key[0]);
    }
    let t = s.subrange(b + 1, b + 1 + v.len());
    assert(t =~= v) by {
        assert forall|i: int| 0 <= i < v.len() implies t[i] == v[i] by {
            assert(w[key.len() + 1 + i] == v[i]);
        }
    }
    assert(ends_number(s, b + 1 + v.len()));
    match e.1 {
        ScalarView::Unsigned(n) => {
            lemma_decimal(n as nat);
            assert(s[b + 1] == v[0]);
            lemma_number_at(s, b + 1, n);
        },
        ScalarView::Signed(x) => {
            lemma_signed_at(s, b + 1, x);
            if x >= 0 {
                lemma_decimal(x as nat);
            }
            assert(s[b + 1] == v[0]);
        },
        _ => {},
    }
}

#[verifier::rlimit(100)]
proof fn lemma_map_tail_at(s: Seq<u8>, p: int, es: Seq<(Seq<u8>, ScalarView)>, subs: Seq<SubField>)
    requires
        0 <= p,
        p + map_tail(es).len() < s.len(),
        s.subrange(p, p + map_tail(es).len()) == map_tail(es),
        s[p + map_tail(es).len()] == 93u8,
        writable_map(es, subs),
    ensures
        map_entries(s, p, subs, false) == Ok::<(Seq<(Seq<u8>, ScalarView)>, int), DeError>(
            (es, p + map_tail(es).len()),
        ),
    decreases es.len(),
{
    if es.len() == 0 {
        assert(es =~= seq![]);
    } else {
        let w = map_entry_text(es[0]);
        let rest = map_tail(es.drop_first());
        let l = map_tail(es);
        assert(l =~= seq![32u8] + w + rest);
        lemma_writable_map_rest(es, subs);
        assert(forall|i: int| 0 <= i < l.len() ==> s[p + i] == #[trigger] l[i]) by {
            assert forall|i: int| 0 <= i < l.len() implies s[p + i] == #[trigger] l[i] by {
                assert(s.subrange(p, p + l.len())[i] == s[p + i]);
            }
        }
        let e = p + 1 + w.len();
        assert(s.subrange(p + 1, e) =~= w) by {
            assert forall|i: int| 0 <= i < w.len() implies s.subrange(p + 1, e)[i] == w[i] by {
                assert(l[1 + i] == w[i]);
            }
        }
        assert(s.subrange(e, e + rest.len()) =~= rest) by {
            assert forall|i: int| 0 <= i < rest.len() implies s.subrange(e, e + rest.len())[i] == rest[i] by {
                assert(l[1 + w.len() + i] == rest[i]);
            }
        }
        assert(s[e] == 32u8 || s[e] == 93u8) by {
            if rest.len() > 0 {
                assert(l[1 + w.len() as int] == rest[0]);
            }
        }
        assert(s[p] == 32u8) by {
            assert(l[0] == 32u8);
        }
        lemma_map_entry_at(s, p + 1, es[0], subs);
        if es[0].0.len() > 0 {
            assert(es[0].0[0] != 93u8);
        }
        lemma_map_tail_at(s, e, es.drop_first(), subs);
        assert(seq![es[0]] + es.drop_first() =~= es);
    }
}

/// An inline map written at `p`, closed by `]`, reads back.
#[verifier::rlimit(100)]
proof fn lemma_map_at(s: Seq<u8>, p: int, es: Seq<(Seq<u8>, ScalarView)>, subs: Seq<SubField>)
    requires
        0 <= p,
        p + map_text(es).len() < s.len(),
        s.subrange(p, p + map_text(es).len()) == map_text(es),
        s[p + map_text(es).len()] == 93u8,
        writable_map(es, subs),
    ensures
        map_entries(s, p, subs, true) == Ok::<(Seq<(Seq<u8>, ScalarView)>, int), DeError>(
            (es, p + map_text(es).len()),
        ),
{
    if es.len() == 0 {
        assert(es =~= seq![]);
    } else {
        let w = map_entry_text(es[0]);
        let rest = map_tail(es.drop_first());
        let l = map_text(es);
        assert(l =~= w + rest);
        lemma_writable_map_rest(es, subs);
        assert(forall|i: int| 0 <= i < l.len() ==> s[p + i] == #[trigger] l[i]) by {
            assert forall|i: int| 0 <= i < l.len() implies s[p + i] == #[trigger] l[i] by {
                assert(s.subrange(p, p + l.len())[i] == s[p + i]);
            }
        }
        let e = p + w.len();
        assert(s.subrange(p, e) =~= w) by {
            assert forall|i: int| 0 <= i < w.len() implies s.subrange(p, e)[i] == w[i] by {
                assert(l[i] == w[i]);
            }
        }
        assert(s.subrange(e, e + rest.len()) =~= rest) by {
            assert forall|i: int| 0 <= i < rest.len() implies s.subrange(e, e + rest.len())[i] == rest[i] by {
                assert(l[w.len() + i] == rest[i]);
            }
        }
        assert(s[e] == 32u8 || s[e] == 93u8) by {
            if rest.len() > 0 {
                assert(l[w.len() as int] == rest[0]);
            }
        }
        lemma_map_entry_at(s, p, es[0], subs);
        assert(w.len() >= 2) by {
            assert(scalar_text(es[0].1).len() >= 1) by {
                match es[0].1 {
                    ScalarView::Unsigned(n) => lemma_decimal(n as nat),
                    ScalarView::Signed(x) => if x >= 0 {
                        lemma_decimal(x as nat);
                    },
                    _ => {},
                }
            }
        }
        assert(s[p + 1] == w[1]);
        if es[0].0.len() > 1 {
            assert(w[1] == es[0].0[1]);
        } else if es[0].0.len() == 1 {
            assert(w[1] == 58u8);
        } else {
            assert(w[1] == scalar_text(es[0].1)[0]);
        }
        lemma_map_tail_at(s, e, es.drop_first(), subs);
        assert(seq![es[0]] + es.drop_first() =~= es);
    }
}

/// An integer scalar written at `k` reads back in a field of its kind.
proof fn lemma_scalar_at(s: Seq<u8>, k: int, x: ScalarView, kind: ScalarKind)
    requires
        0 <= k,
        writable_scalar(x, kind),
        k + scalar_text(x).len() <= s.len(),
        s.subrange(k, k + scalar_text(x).len()) == scalar_text(x),
        ends_number(s, k + scalar_text(x).len()),
    ensures
        scalar_token(s, k, kind) == Ok::<(ScalarView, int), DeError>((x, k + scalar_text(x).len())),
        scalar_text(x).len() >= 1,
        s[k] == 45u8 || is_digit(s[k]),
{
    let t = scalar_text(x);
    match x {
        ScalarView::Unsigned(n) => {
            lemma_decimal(n as nat);
            lemma_number_at(s, k, n);
        },
        ScalarView::Signed(v) => {
            lemma_signed_at(s, k, v);
            if v >= 0 {
                lemma_decimal(v as nat);
            } else {
                lemma_decimal((-(v as int)) as nat);
            }
        },
        _ => {},
    }
    assert(s[k] == t[0]) by {
        assert(s.subrange(k, k + t.len())[0] == s[k]);
    }
}

/// Each integer after a space, as a list continues after its first item.
pub open spec fn int_tail(items: Seq<ScalarView>) -> Seq<u8>
    decreases items.len(),
{
    if items.len() == 0 {
        seq![]
    } else {
        seq![32u8] + scalar_text(items[0]) + int_tail(items.drop_first())
    }
}

/// A list of integers as the grammar writes it: separated by single spaces.
pub open spec fn int_list(items: Seq<ScalarView>) -> Seq<u8> {
    if items.len() == 0 {
        seq![]
    } else {
        scalar_text(items[0]) + int_tail(items.drop_first())
    }
}

pub open spec fn writable_items(items: Seq<ScalarView>, kind: ScalarKind) -> bool {
    forall|i: int| 0 <= i < items.len() ==> writable_scalar(#[trigger] items[i], kind)
}

#[verifier::rlimit(100)]
proof fn lemma_int_tail_at(s: Seq<u8>, p: int, items: Seq<ScalarView>, kind: ScalarKind)
    requires
        0 <= p,
        p + int_tail(items).len() < s.len(),
        s.subrange(p, p + int_tail(items).len()) == int_tail(items),
        s[p + int_tail(items).len()] == 93u8,
        writable_items(items, kind),
    ensures
        list_items(s, p, kind, false) == Ok::<(Seq<ScalarView>, int), DeError>((items, p + int_tail(items).len())),
    decreases items.len(),
{
    if items.len() == 0 {
        assert(items =~= seq![]);
    } else {
        let d = scalar_text(items[0]);
        let rest = int_tail(items.drop_first());
        let l = int_tail(items);
        assert(l =~= seq![32u8] + d + rest);
        assert(forall|i: int| 0 <= i < l.len() ==> s[p + i] == #[trigger] l[i]) by {
            assert forall|i: int| 0 <= i < l.len() implies s[p + i] == #[trigger] l[i] by {
                assert(s.subrange(p, p + l.len())[i] == s[p + i]);
            }
        }
        let e = p + 1 + d.len();
        assert(s.subrange(p + 1, e) =~= d) by {
            assert forall|i: int| 0 <= i < d.len() implies s.subrange(p + 1, e)[i] == d[i] by {
                assert(l[1 + i] == d[i]);
            }
        }
        assert(s.subrange(e, e + rest.len()) =~= rest) by {
            assert forall|i: int| 0 <= i < rest.len() implies s.subrange(e, e + rest.len())[i] == rest[i] by {
                assert(l[1 + d.len() + i] == rest[i]);
            }
        }
        assert(ends_number(s, e)) by {
            if rest.len() > 0 {
                assert(l[1 + d.len() as int] == rest[0]);
            }
        }
        assert(s[p] == 32u8) by {
            assert(l[0] == 32u8);
        }
        assert(writable_scalar(items[0], kind));
        lemma_scalar_at(s, p + 1, items[0], kind);
        assert(writable_items(items.drop_first(), kind)) by {
            assert forall|i: int| 0 <= i < items.drop_first().len() implies writable_scalar(
                #[trigger] items.drop_first()[i],
                kind,
            ) by {
                assert(items.drop_first()[i] == items[i + 1]);
            }
        }
        lemma_int_tail_at(s, e, items.drop_first(), kind);
        assert(seq![items[0]] + items.drop_first() =~= items);
    }
}

/// A list of integers written at `k`, closed by `]`, reads back.
#[verifier::rlimit(100)]
proof fn lemma_int_list_at(s: Seq<u8>, k: int, items: Seq<ScalarView>, kind: ScalarKind)
    requires
        0 <= k,
        k + int_list(items).len() < s.len(),
        s.subrange(k, k + int_list(items).len()) == int_list(items),
        s[k + int_list(items).len()] == 93u8,
        writable_items(items, kind),
    ensures
        list_items(s, k, kind, true) == Ok::<(Seq<ScalarView>, int), DeError>((items, k + int_list(items).len())),
{
    if items.len() == 0 {
        assert(items =~= seq![]);
    } else {
        let d = scalar_text(items[0]);
        let rest = int_tail(items.drop_first());
        let l = int_list(items);
        assert(l =~= d + rest);
        assert(forall|i: int| 0 <= i < l.len() ==> s[k + i] == #[trigger] l[i]) by {
            assert forall|i: int| 0 <= i < l.len() implies s[k + i] == #[trigger] l[i] by {
                assert(s.subrange(k, k + l.len())[i] == s[k + i]);
            }
        }
        let e = k + d.len();
        assert(s.subrange(k, e) =~= d) by {
            assert forall|i: int| 0 <= i < d.len() implies s.subrange(k, e)[i] == d[i] by {
                assert(l[i] == d[i]);
            }
        }
        assert(s.subrange(e, e + rest.len()) =~= rest) by {
            assert forall|i: int| 0 <= i < rest.len() implies s.subrange(e, e + rest.len())[i] == rest[i] by {
                assert(l[d.len() + i] == rest[i]);
            }
        }
        assert(ends_number(s, e)) by {
            if rest.len() > 0 {
                assert(l[d.len() as int] == rest[0]);
            }
        }
        assert(writable_scalar(items[0], kind));
        lemma_scalar_at(s, k, items[0], kind);
        assert(writable_items(items.drop_first(), kind)) by {
            assert forall|i: int| 0 <= i < items.drop_first().len() implies writable_scalar(
                #[trigger] items.drop_first()[i],
                kind,
            ) by {
                assert(items.drop_first()[i] == items[i + 1]);
            }
        }
        lemma_int_tail_at(s, e, items.drop_first(), kind);
        assert(seq![items[0]] + items.drop_first() =~= items);
    }
}

/// Decoding the entry written at `p`.
#[verifier::rlimit(100)]
proof fn lemma_entry_at(s: Seq<u8>, p: int, e: (Seq<u8>, FieldValueView), fields: Seq<Field>)
    requires
        0 <= p,
        p + encode_entry(e).len() <= s.len(),
        s.subrange(p, p + encode_entry(e).len()) == encode_entry(e),
        writable_key(e.0),
        lookup_field(fields, e.0, 0) matches Some(k) && writable_value(e.1, k),
    ensures
        ident_end(s, p) == p + e.0.len(),
        s.subrange(p, p + e.0.len()) == e.0,
        value_open(s, p + e.0.len()) == Ok::<int, DeError>(p + e.0.len() + 1),
        field_value(s, p + e.0.len() + 1, lookup_field(fields, e.0, 0)->0) == Ok::<(FieldValueView, int), DeError>(
            (e.1, p + e.0.len() + 1 + encode_value(e.1).len()),
        ),
        value_close(s, p + e.0.len() + 1 + encode_value(e.1).len()) == Ok::<int, DeError>(
            p + encode_entry(e).len(),
        ),
{
    let key = e.0;
    let v = encode_value(e.1);
    let w = encode_entry(e);
    let b = p + key.len();
    let c = b + 1 + v.len();
    assert(w =~= key + seq![91u8] + v + seq![93u8]);
    assert(forall|i: int| 0 <= i < w.len() ==> s[p + i] == #[trigger] w[i]) by {
        assert forall|i: int| 0 <= i < w.len() implies s[p + i] == #[trigger] w[i] by {
            assert(s.subrange(p, p + w.len())[i] == s[p + i]);
        }
    }
    assert(forall|i: int| p <= i < b ==> s[i] == #[trigger] key[i - p]) by {
        assert forall|i: int| p <= i < b implies s[i] == #[trigger] key[i - p] by {
            assert(w[i - p] == key[i - p]);
        }
    }
    assert(s[b] == 91u8) by {
        assert(w[key.len() as int] == 91u8);
    }
    assert(s[c] == 93u8) by {
        assert(w[key.len() + 1 + v.len() as int] == 93u8);
    }
    assert(s.subrange(b + 1, c) =~= v) by {
        assert forall|i: int| 0 <= i < v.len() implies s.subrange(b + 1, c)[i] == v[i] by {
            assert(w[key.len() + 1 + i] == v[i]);
        }
    }
    assert forall|i: int| p <= i < b implies s[i] != 91u8 && s[i] != 58u8 && s[i] != 93u8 && s[i] != 44u8 by {
        assert(s[i] == key[i - p]);
    }
    lemma_ident_scan(s, p, b);
    assert(s.subrange(p, b) =~= key);
    match e.1 {
        FieldValueView::Scalar(ScalarView::Unsigned(n)) => {
            lemma_number_at(s, b + 1, n);
        },
        FieldValueView::Scalar(ScalarView::Signed(x)) => {
            lemma_signed_at(s, b + 1, x);
        },
        FieldValueView::Scalar(ScalarView::Text(t)) => {
            lemma_text_at(s, b + 1, t);
        },
        FieldValueView::List(items) => {
            if let FieldKind::List(k) = lookup_field(fields, key, 0)->0 {
                lemma_int_list_at(s, b + 1, items, k);
            }
        },
        FieldValueView::Inline(es) => {
            if let FieldKind::Inline(subs) = lookup_field(fields, key, 0)->0 {
                lemma_map_at(s, b + 1, es, subs@);
            }
        },
        _ => {},
    }
}

/// A writable string at `k`, followed by `]`, reads back as itself.
proof fn lemma_text_at(s: Seq<u8>, k: int, t: Seq<u8>)
    requires
        0 <= k,
        k + t.len() < s.len(),
        s.subrange(k, k + t.len()) == t,
        s[k + t.len()] == 93u8,
        writable_text(t),
    ensures
        scalar_token(s, k, ScalarKind::Text) == Ok::<(ScalarView, int), DeError>(
            (ScalarView::Text(t), k + t.len()),
        ),
{
    lemma_text_from(s, k, t, k);
}

proof fn lemma_text_from(s: Seq<u8>, k: int, t: Seq<u8>, m: int)
    requires
        0 <= k <= m <= k + t.len(),
        k + t.len() < s.len(),
        s.subrange(k, k + t.len()) == t,
        s[k + t.len()] == 93u8,
        writable_text(t),
    ensures
        str_end(s, m) == (k + t.len(), 0int),
    decreases k + t.len() - m,
{
    if m < k + t.len() {
        assert(s[m] == t[m - k]) by {
            assert(s.subrange(k, k + t.len())[m - k] == s[m]);
        }
        if m + 1 < k + t.len() {
            assert(s[m + 1] == t[m + 1 - k]) by {
                assert(s.subrange(k, k + t.len())[m + 1 - k] == s[m + 1]);
            }
        }
        lemma_text_from(s, k, t, m + 1);
    }
}

proof fn lemma_entry_in(s: Seq<u8>, p: int, w: Seq<u8>, e: Seq<u8>, q: int)
    requires
        0 <= p,
        0 <= q,
        q + e.len() <= w.len(),
        p + w.len() <= s.len(),
        s.subrange(p, p + w.len()) == w,
        w.subrange(q, q + e.len()) == e,
    ensures
        s.subrange(p + q, p + q + e.len()) == e,
{
    assert(s.subrange(p + q, p + q + e.len()) =~= e) by {
        assert forall|i: int| 0 <= i < e.len() implies s.subrange(p + q, p + q + e.len())[i] == e[i] by {
            assert(s.subrange(p, p + w.len())[q + i] == s[p + q + i]);
            assert(w.subrange(q, q + e.len())[i] == w[q + i]);
        }
    }
}

#[verifier::rlimit(100)]
proof fn lemma_record_tail_at(s: Seq<u8>, p: int, es: Seq<(Seq<u8>, FieldValueView)>, fields: Seq<Field>)
    requires
        0 <= p,
        p + record_tail(es).len() == s.len(),
        s.subrange(p, s.len() as int) == record_tail(es),
        writable_record(es, fields),
    ensures
        root_entries(s, p, fields, false) == Ok::<(Seq<(Seq<u8>, FieldValueView)>, int), DeError>(
            (es, s.len() as int),
        ),
    decreases es.len(),
{
    if es.len() == 0 {
        assert(es =~= seq![]);
    } else {
        let w = encode_entry(es[0]);
        let rest = record_tail(es.drop_first());
        let t = record_tail(es);
        assert(t =~= seq![32u8] + w + rest);
        assert(s[p] == 32u8) by {
            assert(s.subrange(p, s.len() as int)[0] == s[p]);
        }
        assert(t.subrange(1, 1 + w.len() as int) =~= w);
        lemma_entry_in(s, p, t, w, 1);
        assert(writable_key(es[0].0) && (lookup_field(fields, es[0].0, 0) matches Some(k) && writable_value(
            es[0].1,
            k,
        )));
        lemma_entry_at(s, p + 1, es[0], fields);
        let n = p + 1 + w.len();
        assert(t.subrange(1 + w.len() as int, t.len() as int) =~= rest);
        assert(s.subrange(n, s.len() as int) =~= rest) by {
            assert forall|i: int| 0 <= i < rest.len() implies s.subrange(n, s.len() as int)[i] == rest[i] by {
                assert(s.subrange(p, s.len() as int)[1 + w.len() + i] == s[n + i]);
                assert(t[1 + w.len() + i] == rest[i]);
            }
        }
        assert(writable_record(es.drop_first(), fields)) by {
            assert forall|i: int| 0 <= i < es.drop_first().len() implies writable_key(
                (#[trigger] es.drop_first()[i]).0,
            ) && (lookup_field(fields, es.drop_first()[i].0, 0) matches Some(k) && writable_value(
                es.drop_first()[i].1,
                k,
            )) by {
                assert(es.drop_first()[i] == es[i + 1]);
            }
        }
        lemma_record_tail_at(s, n, es.drop_first(), fields);
        assert(seq![es[0]] + es.drop_first() =~= es);
    }
}

proof fn lemma_writable_rest(es: Seq<(Seq<u8>, FieldValueView)>, fields: Seq<Field>)
    requires
        writable_record(es, fields),
        es.len() > 0,
    ensures
        writable_record(es.drop_first(), fields),
        writable_key(es[0].0),
        lookup_field(fields, es[0].0, 0) matches Some(k) && writable_value(es[0].1, k),
{
    assert forall|i: int| 0 <= i < es.drop_first().len() implies writable_key((#[trigger] es.drop_first()[i]).0)
        && (lookup_field(fields, es.drop_first()[i].0, 0) matches Some(k) && writable_value(
        es.drop_first()[i].1,
        k,
    )) by {
        assert(es.drop_first()[i] == es[i + 1]);
    }
}

#[verifier::rlimit(100)]
proof fn lemma_first_entry(s: Seq<u8>, es: Seq<(Seq<u8>, FieldValueView)>, fields: Seq<Field>)
    requires
        es.len() > 0,
        s == encode_record(es),
        writable_record(es, fields),
    ensures
        root_entries(s, 0, fields, true) == with_prefix(
            seq![es[0]],
            root_entries(s, encode_entry(es[0]).len() as int, fields, false),
        ),
{
    let w = encode_entry(es[0]);
    let rest = record_tail(es.drop_first());
    assert(s =~= w + rest);
    assert(s.subrange(0, w.len() as int) =~= w);
    lemma_writable_rest(es, fields);
    lemma_entry_at(s, 0, es[0], fields);
    assert(w.len() > 0);
}

proof fn lemma_tail_region(es: Seq<(Seq<u8>, FieldValueView)>)
    requires
        es.len() > 0,
    ensures
        encode_record(es).len() == encode_entry(es[0]).len() + record_tail(es.drop_first()).len(),
        encode_record(es).subrange(encode_entry(es[0]).len() as int, encode_record(es).len() as int) == record_tail(
            es.drop_first(),
        ),
{
    let w = encode_entry(es[0]);
    let rest = record_tail(es.drop_first());
    assert(encode_record(es) =~= w + rest);
    assert(encode_record(es).subrange(w.len() as int, encode_record(es).len() as int) =~= rest);
}

#[verifier::rlimit(100)]
proof fn lemma_root_ok(es: Seq<(Seq<u8>, FieldValueView)>, fields: Seq<Field>)
    requires
        writable_record(es, fields),
        es.len() > 0,
    ensures
        root_entries(encode_record(es), 0, fields, true) == Ok::<(Seq<(Seq<u8>, FieldValueView)>, int), DeError>(
            (es, encode_record(es).len() as int),
        ),
{
    let s = encode_record(es);
    let n = encode_entry(es[0]).len() as int;
    lemma_writable_rest(es, fields);
    lemma_tail_region(es);
    lemma_record_tail_at(s, n, es.drop_first(), fields);
    lemma_first_entry(s, es, fields);
    assert(seq![es[0]] + es.drop_first() =~= es);
}

/// Round trip of records: a record whose keys the schema names, written
/// with its integers, writable strings, lists of integers and inline maps
/// of integers in the grammar, decodes back to the same entries in the same
/// order; so decoding such a record, writing it out and decoding again
/// gives the same record.
pub proof fn lemma_record_round_trip(es: Seq<(Seq<u8>, FieldValueView)>, fields: Seq<Field>)
    requires
        writable_record(es, fields),
    ensures
        decode(encode_record(es), fields) == Ok::<Seq<(Seq<u8>, FieldValueView)>, DeError>(es),
{
    if es.len() == 0 {
        assert(encode_record(es).len() == 0);
        assert(es =~= seq![]);
    } else {
        lemma_root_ok(es, fields);
    }
}


proof fn lemma_fold_concat(acc: int, a: Seq<u8>, b: Seq<u8>)
    ensures
        fold_digits(acc, a + b) == fold_digits(fold_digits(acc, a), b),
    decreases a.len(),
{
    if a.len() == 0 {
        assert(a + b =~= b);
    } else {
        assert((a + b)[0] == a[0]);
        assert((a + b).drop_first() =~= a.drop_first() + b);
        lemma_fold_concat(acc * 10 + digit_value(a[0]), a.drop_first(), b);
    }
}

/// Percent decimals: digits `d1`, a point, digits `d2` and `%` read as the
/// exact decimal whose mantissa is the digits `d1 d2` and whose scale is the
/// number of digits after the point plus two, i.e. `d1.d2 / 100`.
#[verifier::rlimit(100)]
pub proof fn lemma_percent_decimal(s: Seq<u8>, k: int, d1: Seq<u8>, d2: Seq<u8>)
    requires
        0 <= k,
        d1.len() > 0,
        d2.len() > 0,
        all_digits(d1),
        all_digits(d2),
        k + d1.len() + d2.len() + 2 <= s.len(),
        s.subrange(k, k + d1.len() + d2.len() + 2) == d1 + seq![46u8] + d2 + seq![37u8],
        fold_digits(0, d1 + d2) <= u64::MAX,
    ensures
        number_token(s, k) == Ok::<(Number, int), DeError>(
            (
                Number::Dec(
                    Dec { negative: false, mantissa: fold_digits(0, d1 + d2) as u64, scale: (d2.len() + 2) as usize },
                ),
                k + d1.len() + d2.len() + 2,
            ),
        ),
{
    let w = d1 + seq![46u8] + d2 + seq![37u8];
    let e = k + d1.len();
    let f = e + 1 + d2.len();
    assert(forall|i: int| 0 <= i < w.len() ==> s[k + i] == #[trigger] w[i]) by {
        assert forall|i: int| 0 <= i < w.len() implies s[k + i] == #[trigger] w[i] by {
            assert(s.subrange(k, k + w.len())[i] == s[k + i]);
        }
    }
    assert(s[k] == d1[0]) by {
        assert(w[0] == d1[0]);
    }
    assert(s[e] == 46u8) by {
        assert(w[d1.len() as int] == 46u8);
    }
    assert(s[f] == 37u8) by {
        assert(w[d1.len() + 1 + d2.len() as int] == 37u8);
    }
    assert(s.subrange(k + 1, e) =~= d1.drop_first()) by {
        assert forall|i: int| 0 <= i < d1.len() - 1 implies s.subrange(k + 1, e)[i] == d1.drop_first()[i] by {
            assert(w[1 + i] == d1[1 + i]);
        }
    }
    assert(s.subrange(e + 1, f) =~= d2) by {
        assert forall|i: int| 0 <= i < d2.len() implies s.subrange(e + 1, f)[i] == d2[i] by {
            assert(w[d1.len() + 1 + i] == d2[i]);
        }
    }
    assert(all_digits(d1.drop_first())) by {
        assert forall|i: int| 0 <= i < d1.drop_first().len() implies is_digit(#[trigger] d1.drop_first()[i]) by {
            assert(d1.drop_first()[i] == d1[i + 1]);
        }
    }
    let v1 = fold_digits(0, d1);
    assert(fold_digits(digit_value(s[k]), d1.drop_first()) == v1);
    lemma_fold_concat(0, d1, d2);
    lemma_fold_monotone(0, d1);
    lemma_fold_monotone(v1, d2);
    lemma_scan(s, k + 1, e, digit_value(s[k]));
    lemma_scan(s, e + 1, f, v1);
}

/// Percent integers: digits followed by `%` read as hundredths.
pub proof fn lemma_percent_integer(s: Seq<u8>, k: int, n: u64)
    requires
        0 <= k,
        k + decimal(n as nat).len() < s.len(),
        s.subrange(k, k + decimal(n as nat).len()) == decimal(n as nat),
        s[k + decimal(n as nat).len()] == 37u8,
    ensures
        number_token(s, k) == Ok::<(Number, int), DeError>(
            (Number::Dec(Dec { negative: false, mantissa: n, scale: 2 }), k + decimal(n as nat).len() + 1),
        ),
{
    let d = decimal(n as nat);
    let j = k + d.len();
    lemma_decimal(n as nat);
    assert(s[k] == d[0]) by {
        assert(s.subrange(k, j)[0] == s[k]);
    }
    assert(s.subrange(k + 1, j) =~= d.drop_first());
    assert(all_digits(s.subrange(k + 1, j))) by {
        assert forall|i: int| 0 <= i < s.subrange(k + 1, j).len() implies is_digit(
            #[trigger] s.subrange(k + 1, j)[i],
        ) by {
            assert(s.subrange(k + 1, j)[i] == d[i + 1]);
        }
    }
    assert(fold_digits(digit_value(s[k]), s.subrange(k + 1, j)) == n);
    lemma_scan(s, k + 1, j, digit_value(s[k]));
}

/// Percent decimals through the whole decoder: a record `key[d1.d2%]` whose
/// key the schema gives a decimal field decodes to that one entry, with the
/// mantissa `d1 d2` and the scale `|d2| + 2`, i.e. the value `d1.d2 / 100`.
#[verifier::rlimit(100)]
pub proof fn lemma_percent_from_str(key: Seq<u8>, d1: Seq<u8>, d2: Seq<u8>, fields: Seq<Field>)
    requires
        writable_key(key),
        d1.len() > 0,
        d2.len() > 0,
        all_digits(d1),
        all_digits(d2),
        fold_digits(0, d1 + d2) <= u64::MAX,
        lookup_field(fields, key, 0) == Some(FieldKind::Scalar(ScalarKind::Float)),
    ensures
        decode(key + seq![91u8] + d1 + seq![46u8] + d2 + seq![37u8, 93u8], fields) == Ok::<
            Seq<(Seq<u8>, FieldValueView)>,
            DeError,
        >(
            seq![
                (
                    key,
                    FieldValueView::Scalar(
                        ScalarView::Float(
                            Dec {
                                negative: false,
                                mantissa: fold_digits(0, d1 + d2) as u64,
                                scale: (d2.len() + 2) as usize,
                            },
                        ),
                    ),
                ),
            ],
        ),
{
    let w = d1 + seq![46u8] + d2 + seq![37u8];
    let s = key + seq![91u8] + d1 + seq![46u8] + d2 + seq![37u8, 93u8];
    let b = key.len() as int;
    let e = b + 1 + w.len();
    assert(s =~= key + seq![91u8] + w + seq![93u8]);
    assert forall|i: int| 0 <= i < b implies s[i] != 91u8 && s[i] != 58u8 && s[i] != 93u8 && s[i] != 44u8 by {
        assert(s[i] == key[i]);
    }
    assert(s[b] == 91u8);
    lemma_ident_scan(s, 0, b);
    assert(s.subrange(0, b) =~= key);
    assert(s.subrange(b + 1, e) =~= w);
    lemma_percent_decimal(s, b + 1, d1, d2);
    assert(s[e] == 93u8);
    assert(e + 1 == s.len());
    let d = Dec { negative: false, mantissa: fold_digits(0, d1 + d2) as u64, scale: (d2.len() + 2) as usize };
    assert(field_value(s, b + 1, FieldKind::Scalar(ScalarKind::Float)) == Ok::<(FieldValueView, int), DeError>(
        (FieldValueView::Scalar(ScalarView::Float(d)), e),
    ));
    assert(root_entries(s, e + 1, fields, false) == Ok::<(Seq<(Seq<u8>, FieldValueView)>, int), DeError>(
        (seq![], e + 1),
    ));
    assert(seq![(key, FieldValueView::Scalar(ScalarView::Float(d)))] + Seq::<(Seq<u8>, FieldValueView)>::empty()
        =~= seq![(key, FieldValueView::Scalar(ScalarView::Float(d)))]);
}
} // verus!
