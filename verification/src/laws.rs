use vstd::prelude::*;
use crate::errors::{ValueError, parse_int_error};
use crate::types::{ValueModel, as_integer};
use crate::numbers::{
    spec_parse_i64, spec_i64_text, spec_nat_text, digit_char, digit_value, digits_value,
    all_dec_digits, is_dec_digit,
};
use crate::value_entry::{EntryModel, spec_entry_expired};
use crate::store::{
    StoreModel, spec_set, spec_lookup, spec_deadline, spec_get_i64, spec_get_bytes,
    spec_get_string, spec_incr, spec_decr, spec_incr_delta, spec_sweep, spec_list_pushb,
    spec_list_popb, spec_list_pushf, spec_list_popf, spec_is_expired,
};
use crate::convert::{member_of, non_member_of};

verus! {

// The laws in this module state, once and for all inputs, what the rest of the
// library's contracts promise operation by operation: rows without a deadline
// are immortal, writes of the three scalar kinds read back unchanged while the
// row is visible, increment and decrement undo each other, the set algebra has
// genuine set semantics, pushes and pops at the sequence ends undo each other,
// expiry flips exactly at the deadline, and the sweep deletes exactly the
// expired rows.
/// A row without a deadline is expired at no instant.
pub proof fn law_no_deadline_never_expires(e: EntryModel, now: u64)
    requires
        e.expiration is None,
    ensures
        !spec_entry_expired(e, now),
{
}

/// A row written with no time-to-live into a store with no default stays
/// visible at every later instant, holding the written value.
pub proof fn law_set_without_ttl_always_visible(
    m: StoreModel,
    k: Seq<char>,
    v: ValueModel,
    now1: u64,
    now2: u64,
)
    requires
        m.default_ttl is None,
    ensures
        spec_lookup(spec_set(m, k, v, None, now1), k, now2) == Some(
            EntryModel { value: v, expiration: None },
        ),
{
}

/// A write of an integer reads back as that integer while the row is visible.
pub proof fn law_round_trip_i64(
    m: StoreModel,
    k: Seq<char>,
    v: i64,
    ttl: Option<u64>,
    now1: u64,
    now2: u64,
)
    requires
        !spec_entry_expired(
            EntryModel {
                value: ValueModel::Integer(v),
                expiration: spec_deadline(m.default_ttl, ttl, now1),
            },
            now2,
        ),
    ensures
        spec_get_i64(spec_set(m, k, ValueModel::Integer(v), ttl, now1), k, now2) == Some(
            Ok::<i64, ValueError>(v),
        ),
{
}

/// A write of bytes reads back as those bytes while the row is visible.
pub proof fn law_round_trip_bytes(
    m: StoreModel,
    k: Seq<char>,
    v: Seq<u8>,
    ttl: Option<u64>,
    now1: u64,
    now2: u64,
)
    requires
        !spec_entry_expired(
            EntryModel {
                value: ValueModel::Bytes(v),
                expiration: spec_deadline(m.default_ttl, ttl, now1),
            },
            now2,
        ),
    ensures
        spec_get_bytes(spec_set(m, k, ValueModel::Bytes(v), ttl, now1), k, now2) == Some(
            Ok::<Seq<u8>, ValueError>(v),
        ),
{
}

/// A write of text reads back as that text while the row is visible.
pub proof fn law_round_trip_string(
    m: StoreModel,
    k: Seq<char>,
    v: Seq<char>,
    ttl: Option<u64>,
    now1: u64,
    now2: u64,
)
    requires
        !spec_entry_expired(
            EntryModel {
                value: ValueModel::Text(v),
                expiration: spec_deadline(m.default_ttl, ttl, now1),
            },
            now2,
        ),
    ensures
        spec_get_string(spec_set(m, k, ValueModel::Text(v), ttl, now1), k, now2) == Some(
            Ok::<Seq<char>, ValueError>(v),
        ),
{
}

/// An increment that succeeds is undone by a decrement of the same magnitude,
/// at any instant at which the row is still visible: the second call returns
/// the original integer reading and restores it.
pub proof fn law_incr_decr_inverse(
    m: StoreModel,
    k: Seq<char>,
    by: Option<u64>,
    now1: u64,
    now2: u64,
)
    requires
        spec_incr(m, k, by, now1).1 matches Some(r) && r is Ok,
        spec_lookup(m, k, now2) is Some,
    ensures
        ({
            let (m1, r1) = spec_incr(m, k, by, now1);
            let (m2, r2) = spec_decr(m1, k, by, now2);
            &&& r2 == Some(as_integer(spec_lookup(m, k, now1)->Some_0.value))
            &&& spec_get_i64(m2, k, now2) == Some(as_integer(spec_lookup(m, k, now1)->Some_0.value))
        }),
{
    let d = spec_incr_delta(by)->Some_0;
    let e = spec_lookup(m, k, now1)->Some_0;
    let oldv = as_integer(e.value)->Ok_0;
    let (m1, r1) = spec_incr(m, k, by, now1);
    assert(m1.data[k] == EntryModel {
        value: ValueModel::Integer((oldv + d) as i64),
        expiration: e.expiration,
    });
    assert(spec_lookup(m1, k, now2) is Some);
}

/// An increment of a text row that does not parse as an integer reports the
/// parse failure and leaves the store untouched.
pub proof fn law_incr_parse_error(m: StoreModel, k: Seq<char>, by: Option<u64>, now: u64)
    requires
        spec_incr_delta(by) is Some,
        spec_lookup(m, k, now) matches Some(e) && e.value is Text && spec_parse_i64(
            e.value->Text_0,
        ) is None,
    ensures
        spec_incr(m, k, by, now) == (m, Some(Err::<i64, ValueError>(parse_int_error()))),
{
}

/// The set algebra has set semantics: membership in an intersection, union or
/// difference listing is exactly the boolean combination of membership in the
/// operands.
pub proof fn law_hset_algebra_membership(a: Seq<Seq<char>>, b: Seq<Seq<char>>)
    ensures
        forall|x: Seq<char>|
            #[trigger] a.filter(member_of(b)).contains(x) <==> a.contains(x) && b.contains(x),
        forall|x: Seq<char>|
            #[trigger] (a + b.filter(non_member_of(a))).contains(x) <==> a.contains(x)
                || b.contains(x),
        forall|x: Seq<char>|
            #[trigger] a.filter(non_member_of(b)).contains(x) <==> a.contains(x) && !b.contains(x),
{
    law_filter_membership(a, member_of(b));
    law_filter_membership(a, non_member_of(b));
    law_filter_membership(b, non_member_of(a));
    let u = a + b.filter(non_member_of(a));
    assert forall|x: Seq<char>| #[trigger] u.contains(x) implies a.contains(x) || b.contains(x) by {
        let i = choose|i: int| 0 <= i < u.len() && u[i] == x;
        if i < a.len() {
            assert(a[i] == x);
        } else {
            assert(b.filter(non_member_of(a))[i - a.len()] == x);
            assert(b.filter(non_member_of(a)).contains(x));
        }
    }
    assert forall|x: Seq<char>| a.contains(x) || b.contains(x) implies #[trigger] u.contains(x) by {
        if a.contains(x) {
            let i = choose|i: int| 0 <= i < a.len() && a[i] == x;
            assert(u[i] == x);
        } else {
            assert(b.filter(non_member_of(a)).contains(x));
            let i = choose|i: int|
                0 <= i < b.filter(non_member_of(a)).len() && b.filter(non_member_of(a))[i] == x;
            assert(u[a.len() + i] == x);
        }
    }
}

/// Every element of a filtered sequence stands in the original.
proof fn lemma_filter_subset(s: Seq<Seq<char>>, pred: spec_fn(Seq<char>) -> bool)
    ensures
        forall|i: int|
            0 <= i < s.filter(pred).len() ==> s.contains(#[trigger] s.filter(pred)[i]),
    decreases s.len(),
{
    reveal(Seq::filter);
    if s.len() > 0 {
        lemma_filter_subset(s.drop_last(), pred);
        let sub = s.drop_last().filter(pred);
        assert forall|i: int|
            0 <= i < s.filter(pred).len() implies s.contains(#[trigger] s.filter(pred)[i]) by {
            if i < sub.len() {
                assert(s.filter(pred)[i] == sub[i]);
                assert(s.drop_last().contains(sub[i]));
                let w = choose|w: int| 0 <= w < s.drop_last().len() && s.drop_last()[w] == sub[i];
                assert(s[w] == sub[i]);
            } else {
                assert(s.filter(pred)[i] == s.last());
                assert(s[s.len() - 1] == s.last());
            }
        }
    }
}

/// Membership in a filtered sequence is membership plus the predicate.
pub proof fn law_filter_membership(s: Seq<Seq<char>>, pred: spec_fn(Seq<char>) -> bool)
    ensures
        forall|x: Seq<char>| #[trigger] s.filter(pred).contains(x) <==> s.contains(x) && pred(x),
{
    lemma_filter_subset(s, pred);
    assert forall|x: Seq<char>| #[trigger] s.filter(pred).contains(x) implies s.contains(x) && pred(
        x,
    ) by {
        let i = choose|i: int| 0 <= i < s.filter(pred).len() && s.filter(pred)[i] == x;
        s.lemma_filter_pred(pred, i);
    }
    assert forall|x: Seq<char>| s.contains(x) && pred(x) implies #[trigger] s.filter(pred).contains(
        x,
    ) by {
        let i = choose|i: int| 0 <= i < s.len() && s[i] == x;
        s.lemma_filter_contains(pred, i);
    }
}

/// A push at the back of a visible sequence row is undone by a pop at the
/// back: the pop returns the pushed value and restores the row.
pub proof fn law_list_push_pop(m: StoreModel, k: Seq<char>, val: Seq<char>, now1: u64, now2: u64)
    requires
        spec_lookup(m, k, now1) matches Some(e) && e.value is Deque,
        spec_lookup(m, k, now2) is Some,
    ensures
        ({
            let (m1, r1) = spec_list_pushb(m, k, val, now1);
            let (m2, r2) = spec_list_popb(m1, k, now2);
            &&& r1 == Some(Ok::<Seq<char>, ValueError>(val))
            &&& r2 == Some(Ok::<Seq<char>, ValueError>(val))
            &&& m2.data[k] == m.data[k]
            &&& m2.data =~= m.data
        }),
{
    let e = spec_lookup(m, k, now1)->Some_0;
    let items = e.value->Deque_0;
    let (m1, r1) = spec_list_pushb(m, k, val, now1);
    assert(m1.data[k] == EntryModel {
        value: ValueModel::Deque(items.push(val)),
        expiration: e.expiration,
    });
    assert(spec_lookup(m1, k, now2) is Some);
    assert(items.push(val).drop_last() =~= items);
    let (m2, r2) = spec_list_popb(m1, k, now2);
    assert(m2.data[k] == EntryModel { value: ValueModel::Deque(items), expiration: e.expiration });
    assert(m2.data =~= m.data);
}

/// A push at the front of a visible sequence row is undone by a pop at the
/// front: the pop returns the pushed value and restores the row.
pub proof fn law_list_pushf_popf(m: StoreModel, k: Seq<char>, val: Seq<char>, now1: u64, now2: u64)
    requires
        spec_lookup(m, k, now1) matches Some(e) && e.value is Deque,
        spec_lookup(m, k, now2) is Some,
    ensures
        ({
            let (m1, r1) = spec_list_pushf(m, k, val, now1);
            let (m2, r2) = spec_list_popf(m1, k, now2);
            &&& r1 == Some(Ok::<Seq<char>, ValueError>(val))
            &&& r2 == Some(Ok::<Seq<char>, ValueError>(val))
            &&& m2.data[k] == m.data[k]
            &&& m2.data =~= m.data
        }),
{
    let e = spec_lookup(m, k, now1)->Some_0;
    let items = e.value->Deque_0;
    let (m1, r1) = spec_list_pushf(m, k, val, now1);
    assert(m1.data[k] == EntryModel {
        value: ValueModel::Deque(seq![val] + items),
        expiration: e.expiration,
    });
    assert(spec_lookup(m1, k, now2) is Some);
    assert((seq![val] + items).drop_first() =~= items);
    assert((seq![val] + items)[0] == val);
    let (m2, r2) = spec_list_popf(m1, k, now2);
    assert(m2.data[k] == EntryModel { value: ValueModel::Deque(items), expiration: e.expiration });
    assert(m2.data =~= m.data);
}

/// Expiry flips exactly at the deadline: a row written at `now` with an
/// explicit time-to-live is visible strictly before `now + ttl` and masked
/// from then on.
pub proof fn law_expiration_boundary(
    m: StoreModel,
    k: Seq<char>,
    v: ValueModel,
    ttl: u64,
    now: u64,
    t: u64,
)
    requires
        now + ttl <= u64::MAX,
    ensures
        t < now + ttl ==> spec_lookup(spec_set(m, k, v, Some(ttl), now), k, t) == Some(
            EntryModel { value: v, expiration: Some((now + ttl) as u64) },
        ),
        t >= now + ttl ==> spec_lookup(spec_set(m, k, v, Some(ttl), now), k, t) is None,
{
}

/// The sweep deletes exactly the rows expired at its instant: a key survives
/// if and only if it was present and unexpired, it keeps its row, and no
/// surviving row is expired at that instant.
pub proof fn law_sweep_exact(m: StoreModel, now: u64)
    ensures
        forall|k: Seq<char>|
            #[trigger] spec_sweep(m, now).data.contains_key(k) <==> (m.data.contains_key(k)
                && !spec_entry_expired(m.data[k], now)),
        forall|k: Seq<char>| #[trigger]
            spec_sweep(m, now).data.contains_key(k) ==> spec_sweep(m, now).data[k] == m.data[k],
        forall|k: Seq<char>| #[trigger]
            spec_sweep(m, now).data.contains_key(k) ==> spec_is_expired(spec_sweep(m, now), k, now)
                == Some(false),
{
}

/// Before a sweep, an expired row is physically present yet masked from reads:
/// the key is still there and reported expired, while a read of it gives
/// nothing.
pub proof fn law_lazy_expiry_masks_reads(m: StoreModel, k: Seq<char>, now: u64)
    requires
        m.data.contains_key(k),
        spec_entry_expired(m.data[k], now),
    ensures
        spec_is_expired(m, k, now) == Some(true),
        spec_lookup(m, k, now) is None,
        spec_get_string(m, k, now) is None,
{
}

/// A decimal digit character carries the digit it was made from.
proof fn lemma_digit_char_value(d: int)
    requires
        0 <= d <= 9,
    ensures
        is_dec_digit(digit_char(d)),
        digit_value(digit_char(d)) == d,
{
    assert(((d + 48) as u8) as char as u32 == d + 48);
}

/// The decimal rendering of a non-negative integer consists of digits and
/// denotes the integer itself.
proof fn lemma_nat_text_value(n: int)
    requires
        n >= 0,
    ensures
        spec_nat_text(n).len() >= 1,
        all_dec_digits(spec_nat_text(n)),
        digits_value(spec_nat_text(n)) == n,
    decreases n,
{
    if n < 10 {
        lemma_digit_char_value(n);
        let s = spec_nat_text(n);
        assert(s =~= seq![digit_char(n)]);
        assert(s.drop_last() =~= Seq::<char>::empty());
        assert(digits_value(s) == 10 * digits_value(s.drop_last()) + digit_value(s.last()));
    } else {
        lemma_nat_text_value(n / 10);
        lemma_digit_char_value(n % 10);
        let a = spec_nat_text(n / 10);
        let s = spec_nat_text(n);
        assert(s == a + seq![digit_char(n % 10)]);
        assert(s.drop_last() =~= a);
        assert(s.last() == digit_char(n % 10));
        assert forall|i: int| 0 <= i < s.len() implies is_dec_digit(#[trigger] s[i]) by {
            if i < a.len() {
                assert(s[i] == a[i]);
            } else {
                assert(s[i] == digit_char(n % 10));
            }
        }
        assert(digits_value(s) == 10 * (n / 10) + (n % 10));
    }
}

/// Printing a 64-bit signed integer in decimal and parsing the result gives
/// the integer back: the store's decimal renderings always re-read as the same
/// number.
pub proof fn law_decimal_round_trip(v: i64)
    ensures
        spec_parse_i64(spec_i64_text(v)) == Some(v),
{
    if v >= 0 {
        lemma_nat_text_value(v as int);
        let s = spec_i64_text(v);
        assert(is_dec_digit(s[0]));
        assert(s[0] as u32 != 45 && s[0] as u32 != 43);
        assert(('-' as u32 == 45) && ('+' as u32 == 43));
        assert(s[0] != '-' && s[0] != '+');
    } else {
        lemma_nat_text_value(-(v as int));
        let s = spec_i64_text(v);
        let ds = spec_nat_text(-(v as int));
        assert(s == seq!['-'] + ds);
        assert(s.len() > 0 && s[0] == '-');
        assert(s.drop_first() =~= ds);
        assert(-digits_value(ds) == v as int);
    }
}

} // verus!
