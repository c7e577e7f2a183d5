use vstd::prelude::*;
use std::collections::VecDeque;
use crate::numbers::{spec_nat_text, u8_to_string, push_digits};
use crate::types::{
    spec_char_tokens, spec_byte_tokens, spec_dedup_first, spec_count, spec_occurrence_pairs,
    lemma_dedup_first_contains,
};

verus! {

/// Bridges indexing into a vector's deep view with the element's own view.
pub proof fn lemma_vec_deep_view_index<T: DeepView>(v: Vec<T>, i: int)
    requires
        0 <= i < v@.len(),
    ensures
        v.deep_view()[i] == v@[i].deep_view(),
{
}

/// A pushed element appears at the end of the deep view.
pub proof fn lemma_vec_deep_view_push<T: DeepView>(prev: Vec<T>, cur: Vec<T>, x: T)
    requires
        cur@ == prev@.push(x),
    ensures
        cur.deep_view() =~= prev.deep_view().push(x.deep_view()),
{
    assert forall|i: int| 0 <= i < cur@.len() implies cur.deep_view()[i] == prev.deep_view().push(
        x.deep_view(),
    )[i] by {
        if i < prev@.len() {
            assert(cur@[i] == prev@[i]);
        } else {
            assert(cur@[i] == x);
        }
    }
}

/// Bridges indexing into a double-ended queue's deep view with the element's
/// own view.
pub proof fn lemma_deque_deep_view_index<T: DeepView>(v: VecDeque<T>, i: int)
    requires
        0 <= i < v@.len(),
    ensures
        v.deep_view()[i] == v@[i].deep_view(),
{
}

/// An element pushed at the back appears at the end of the deep view.
pub proof fn lemma_deque_deep_view_push<T: DeepView>(prev: VecDeque<T>, cur: VecDeque<T>, x: T)
    requires
        cur@ == prev@.push(x),
    ensures
        cur.deep_view() =~= prev.deep_view().push(x.deep_view()),
{
    assert forall|i: int| 0 <= i < cur@.len() implies cur.deep_view()[i] == prev.deep_view().push(
        x.deep_view(),
    )[i] by {
        if i < prev@.len() {
            assert(cur@[i] == prev@[i]);
        } else {
            assert(cur@[i] == x);
        }
    }
}

/// A string holding exactly one character.
pub fn char_to_string(c: char) -> (r: String)
    ensures
        r@ == seq![c],
{
    let mut v: Vec<char> = Vec::new();
    v.push(c);
    assert(v@ =~= seq![c]);
    crate::text::string_from_chars(&v)
}

/// A fresh copy of a vector of strings, same contents in the same order.
pub fn clone_string_vec(v: &Vec<String>) -> (r: Vec<String>)
    ensures
        r.deep_view() == v.deep_view(),
{
    let mut out: Vec<String> = Vec::new();
    let mut i: usize = 0;
    while i < v.len()
        invariant
            i <= v.len(),
            out.deep_view() == v.deep_view().take(i as int),
        decreases v.len() - i,
    {
        let ghost prev = out;
        let x = v[i].clone();
        out.push(x);
        proof {
            lemma_vec_deep_view_index(*v, i as int);
            lemma_vec_deep_view_push(prev, out, x);
            assert(out.deep_view() =~= v.deep_view().take(i as int + 1));
        }
        i += 1;
    }
    assert(v.deep_view().take(v.len() as int) =~= v.deep_view());
    out
}

/// A fresh copy of a vector of string pairs, same contents in the same order.
pub fn clone_pairs_vec(v: &Vec<(String, String)>) -> (r: Vec<(String, String)>)
    ensures
        r.deep_view() == v.deep_view(),
{
    let mut out: Vec<(String, String)> = Vec::new();
    let mut i: usize = 0;
    while i < v.len()
        invariant
            i <= v.len(),
            out.deep_view() == v.deep_view().take(i as int),
        decreases v.len() - i,
    {
        let ghost prev = out;
        let k = v[i].0.clone();
        let val = v[i].1.clone();
        let x = (k, val);
        out.push(x);
        proof {
            lemma_vec_deep_view_index(*v, i as int);
            lemma_vec_deep_view_push(prev, out, x);
            assert(x.deep_view() == v@[i as int].deep_view());
            assert(out.deep_view() =~= v.deep_view().take(i as int + 1));
        }
        i += 1;
    }
    assert(v.deep_view().take(v.len() as int) =~= v.deep_view());
    out
}

/// Whether some string in `v` has the same characters as `x`.
pub fn vec_contains_string(v: &Vec<String>, x: &String) -> (r: bool)
    ensures
        r == v.deep_view().contains(x@),
{
    let mut i: usize = 0;
    while i < v.len()
        invariant
            i <= v.len(),
            forall|j: int| 0 <= j < i ==> v.deep_view()[j] != x@,
        decreases v.len() - i,
    {
        proof {
            lemma_vec_deep_view_index(*v, i as int);
        }
        if v[i] == *x {
            assert(v.deep_view()[i as int] == x@);
            return true;
        }
        i += 1;
    }
    assert(!v.deep_view().contains(x@));
    false
}

/// The distinct strings of `v`, each at its first occurrence, in order.
pub fn dedup_strings(v: &Vec<String>) -> (r: Vec<String>)
    ensures
        r.deep_view() == spec_dedup_first(v.deep_view()),
{
    let ghost s = v.deep_view();
    let mut out: Vec<String> = Vec::new();
    let mut i: usize = 0;
    while i < v.len()
        invariant
            s == v.deep_view(),
            i <= v.len(),
            out.deep_view() == spec_dedup_first(s.take(i as int)),
        decreases v.len() - i,
    {
        let ghost prefix = s.take(i as int);
        let ghost prefix1 = s.take(i as int + 1);
        proof {
            assert(prefix1.drop_last() =~= prefix);
            lemma_vec_deep_view_index(*v, i as int);
            assert(prefix1.last() == s[i as int]);
            lemma_dedup_first_contains(prefix);
        }
        if !vec_contains_string(&out, &v[i]) {
            let ghost prev = out;
            let x = v[i].clone();
            out.push(x);
            proof {
                lemma_vec_deep_view_push(prev, out, x);
                assert(out.deep_view() =~= spec_dedup_first(prefix).push(s[i as int]));
            }
        }
        i += 1;
    }
    assert(s.take(v.len() as int) =~= s);
    out
}

/// One single-character string per character of `s`, in order.
pub fn char_tokens(s: &Vec<char>) -> (r: Vec<String>)
    ensures
        r.deep_view() == spec_char_tokens(s@),
{
    let mut out: Vec<String> = Vec::new();
    let mut i: usize = 0;
    while i < s.len()
        invariant
            i <= s.len(),
            out.deep_view() == spec_char_tokens(s@).take(i as int),
        decreases s.len() - i,
    {
        let ghost prev = out;
        let x = char_to_string(s[i]);
        out.push(x);
        proof {
            lemma_vec_deep_view_push(prev, out, x);
            assert(out.deep_view() =~= spec_char_tokens(s@).take(i as int + 1));
        }
        i += 1;
    }
    assert(spec_char_tokens(s@).take(s.len() as int) =~= spec_char_tokens(s@));
    out
}

/// One decimal string per byte of `b`, in order.
pub fn byte_tokens(b: &Vec<u8>) -> (r: Vec<String>)
    ensures
        r.deep_view() == spec_byte_tokens(b@),
{
    let mut out: Vec<String> = Vec::new();
    let mut i: usize = 0;
    while i < b.len()
        invariant
            i <= b.len(),
            out.deep_view() == spec_byte_tokens(b@).take(i as int),
        decreases b.len() - i,
    {
        let ghost prev = out;
        let x = u8_to_string(b[i]);
        out.push(x);
        proof {
            lemma_vec_deep_view_push(prev, out, x);
            assert(out.deep_view() =~= spec_byte_tokens(b@).take(i as int + 1));
        }
        i += 1;
    }
    assert(spec_byte_tokens(b@).take(b.len() as int) =~= spec_byte_tokens(b@));
    out
}

pub proof fn lemma_count_bounds(s: Seq<Seq<char>>, x: Seq<char>)
    ensures
        0 <= spec_count(s, x) <= s.len(),
    decreases s.len(),
{
    if s.len() > 0 {
        lemma_count_bounds(s.drop_last(), x);
    }
}

/// How many strings in `v` have the same characters as `x`.
pub fn count_strings(v: &Vec<String>, x: &String) -> (r: usize)
    ensures
        r as int == spec_count(v.deep_view(), x@),
{
    let ghost s = v.deep_view();
    let mut count: usize = 0;
    let mut i: usize = 0;
    while i < v.len()
        invariant
            s == v.deep_view(),
            i <= v.len(),
            count as int == spec_count(s.take(i as int), x@),
            count <= i,
        decreases v.len() - i,
    {
        let ghost prefix1 = s.take(i as int + 1);
        proof {
            assert(prefix1.drop_last() =~= s.take(i as int));
            lemma_vec_deep_view_index(*v, i as int);
            assert(prefix1.last() == s[i as int]);
        }
        if v[i] == *x {
            count += 1;
        }
        i += 1;
    }
    assert(s.take(v.len() as int) =~= s);
    count
}

/// Each distinct string of `v` paired with its decimal occurrence count, in
/// order of first occurrence.
pub fn occurrence_pairs(v: &Vec<String>) -> (r: Vec<(String, String)>)
    ensures
        r.deep_view() == spec_occurrence_pairs(v.deep_view()),
{
    let ghost s = v.deep_view();
    let keys = dedup_strings(v);
    let mut out: Vec<(String, String)> = Vec::new();
    let mut j: usize = 0;
    while j < keys.len()
        invariant
            s == v.deep_view(),
            keys.deep_view() == spec_dedup_first(s),
            j <= keys.len(),
            out.len() == j,
            forall|i: int|
                0 <= i < j ==> out.deep_view()[i] == (
                    keys.deep_view()[i],
                    spec_nat_text(spec_count(s, keys.deep_view()[i])),
                ),
        decreases keys.len() - j,
    {
        let c = count_strings(v, &keys[j]);
        proof {
            lemma_vec_deep_view_index(keys, j as int);
            lemma_count_bounds(s, keys.deep_view()[j as int]);
        }
        let mut digits: Vec<char> = Vec::new();
        push_digits(c as u64, &mut digits);
        let count_text = crate::text::string_from_chars(&digits);
        let ghost prev = out;
        let k = keys[j].clone();
        let x = (k, count_text);
        out.push(x);
        proof {
            lemma_vec_deep_view_push(prev, out, x);
            assert(out.deep_view()[j as int] == (
                keys.deep_view()[j as int],
                spec_nat_text(spec_count(s, keys.deep_view()[j as int])),
            ));
        }
        j += 1;
    }
    proof {
        let expected = spec_occurrence_pairs(s);
        assert(expected.len() == keys.deep_view().len());
        assert forall|i: int| 0 <= i < expected.len() implies out.deep_view()[i] == expected[i] by {
            assert(expected[i] == (
                keys.deep_view()[i],
                spec_nat_text(spec_count(s, keys.deep_view()[i])),
            ));
        }
        assert(out.deep_view() =~= expected);
    }
    out
}

/// Copies a vector of strings into a double-ended queue, preserving order.
pub fn deque_from_vec(v: &Vec<String>) -> (r: VecDeque<String>)
    ensures
        r.deep_view() == v.deep_view(),
{
    let mut out: VecDeque<String> = VecDeque::new();
    let mut i: usize = 0;
    while i < v.len()
        invariant
            i <= v.len(),
            out.deep_view() == v.deep_view().take(i as int),
        decreases v.len() - i,
    {
        let ghost prev = out;
        let x = v[i].clone();
        out.push_back(x);
        proof {
            lemma_vec_deep_view_index(*v, i as int);
            lemma_deque_deep_view_push(prev, out, x);
            assert(out.deep_view() =~= v.deep_view().take(i as int + 1));
        }
        i += 1;
    }
    assert(v.deep_view().take(v.len() as int) =~= v.deep_view());
    out
}

/// Copies a double-ended queue of strings into a vector, preserving order.
pub fn vec_from_deque(d: &VecDeque<String>) -> (r: Vec<String>)
    ensures
        r.deep_view() == d.deep_view(),
{
    let mut out: Vec<String> = Vec::new();
    let mut i: usize = 0;
    while i < d.len()
        invariant
            i <= d.len(),
            out.deep_view() == d.deep_view().take(i as int),
        decreases d.len() - i,
    {
        let ghost prev = out;
        let x = d[i].clone();
        out.push(x);
        proof {
            lemma_deque_deep_view_index(*d, i as int);
            lemma_vec_deep_view_push(prev, out, x);
            assert(out.deep_view() =~= d.deep_view().take(i as int + 1));
        }
        i += 1;
    }
    assert(d.deep_view().take(d.len() as int) =~= d.deep_view());
    out
}

/// A fresh copy of a byte vector.
pub fn clone_bytes_vec(v: &Vec<u8>) -> (r: Vec<u8>)
    ensures
        r@ == v@,
{
    let mut out: Vec<u8> = Vec::new();
    let mut i: usize = 0;
    while i < v.len()
        invariant
            i <= v.len(),
            out@ == v@.take(i as int),
        decreases v.len() - i,
    {
        out.push(v[i]);
        assert(out@ =~= v@.take(i as int + 1));
        i += 1;
    }
    assert(v@.take(v.len() as int) =~= v@);
    out
}

/// An updated element appears at its index in the deep view.
pub proof fn lemma_vec_deep_view_update<T: DeepView>(prev: Vec<T>, cur: Vec<T>, i: int, x: T)
    requires
        0 <= i < prev@.len(),
        cur@ == prev@.update(i, x),
    ensures
        cur.deep_view() =~= prev.deep_view().update(i, x.deep_view()),
{
    assert forall|j: int| 0 <= j < cur@.len() implies cur.deep_view()[j] == prev.deep_view().update(
        i,
        x.deep_view(),
    )[j] by {
        if j == i {
            assert(cur@[j] == x);
        } else {
            assert(cur@[j] == prev@[j]);
        }
    }
}

/// A removed element disappears from the deep view.
pub proof fn lemma_vec_deep_view_remove<T: DeepView>(prev: Vec<T>, cur: Vec<T>, i: int)
    requires
        0 <= i < prev@.len(),
        cur@ == prev@.remove(i),
    ensures
        cur.deep_view() =~= prev.deep_view().remove(i),
{
    assert forall|j: int| 0 <= j < cur@.len() implies cur.deep_view()[j] == prev.deep_view().remove(
        i,
    )[j] by {
        if j < i {
            assert(cur@[j] == prev@[j]);
        } else {
            assert(cur@[j] == prev@[j + 1]);
        }
    }
}

/// The position of the first pair keyed by `key`, if any.
pub fn assoc_index_of<T: DeepView>(v: &Vec<(String, T)>, key: &str) -> (r: Option<usize>)
    ensures
        match r {
            Some(i) => {
                &&& i < v.len()
                &&& v.deep_view()[i as int].0 == key@
                &&& forall|j: int| 0 <= j < i ==> (#[trigger] v.deep_view()[j]).0 != key@
            },
            None => forall|j: int|
                0 <= j < v.deep_view().len() ==> (#[trigger] v.deep_view()[j]).0 != key@,
        },
{
    let ks: String = key.to_owned();
    let mut i: usize = 0;
    while i < v.len()
        invariant
            i <= v.len(),
            ks@ == key@,
            forall|j: int| 0 <= j < i ==> (#[trigger] v.deep_view()[j]).0 != key@,
        decreases v.len() - i,
    {
        proof {
            lemma_vec_deep_view_index(*v, i as int);
        }
        if v[i].0 == ks {
            return Some(i);
        }
        i += 1;
    }
    None
}

/// The mapping a listing of pairs builds up: pairs are inserted from the
/// front, a repeated key keeps its first position and takes the latest value.
pub fn pairs_from_list(v: &Vec<(String, String)>) -> (r: Vec<(String, String)>)
    ensures
        r.deep_view() == crate::types::spec_pairs_from_list(v.deep_view()),
{
    let ghost s = v.deep_view();
    let mut out: Vec<(String, String)> = Vec::new();
    let mut i: usize = 0;
    while i < v.len()
        invariant
            s == v.deep_view(),
            i <= v.len(),
            out.deep_view() == crate::types::spec_pairs_from_list(s.take(i as int)),
        decreases v.len() - i,
    {
        let ghost prefix = s.take(i as int);
        let ghost prefix1 = s.take(i as int + 1);
        proof {
            assert(prefix1.drop_last() =~= prefix);
            lemma_vec_deep_view_index(*v, i as int);
            assert(prefix1.last() == s[i as int]);
        }
        let k = v[i].0.clone();
        let val = v[i].1.clone();
        match assoc_index_of(&out, k.as_str()) {
            Some(at) => {
                let ghost prev = out;
                let p: &mut (String, String) = &mut out[at];
                p.1 = val;
                proof {
                    assert(out@ == prev@.update(at as int, (prev@[at as int].0, out@[at as int].1)));
                    lemma_vec_deep_view_index(prev, at as int);
                    lemma_vec_deep_view_update(
                        prev,
                        out,
                        at as int,
                        (prev@[at as int].0, out@[at as int].1),
                    );
                    crate::assoc::lemma_assoc_insert_found(prev.deep_view(), at as int, s[i as int].1);
                    assert(prev.deep_view()[at as int].0 == s[i as int].0);
                    assert(out.deep_view() =~= crate::assoc::assoc_insert(
                        prev.deep_view(),
                        s[i as int].0,
                        s[i as int].1,
                    ));
                }
            },
            None => {
                let ghost prev = out;
                let x = (k, val);
                out.push(x);
                proof {
                    lemma_vec_deep_view_push(prev, out, x);
                    crate::assoc::lemma_assoc_insert_absent(
                        prev.deep_view(),
                        s[i as int].0,
                        s[i as int].1,
                    );
                    assert(out.deep_view() =~= crate::assoc::assoc_insert(
                        prev.deep_view(),
                        s[i as int].0,
                        s[i as int].1,
                    ));
                }
            },
        }
        i += 1;
    }
    assert(s.take(v.len() as int) =~= s);
    out
}

/// The predicate "is an element of `b`".
pub open spec fn member_of(b: Seq<Seq<char>>) -> spec_fn(Seq<char>) -> bool {
    |x: Seq<char>| b.contains(x)
}

/// The predicate "is not an element of `b`".
pub open spec fn non_member_of(b: Seq<Seq<char>>) -> spec_fn(Seq<char>) -> bool {
    |x: Seq<char>| !b.contains(x)
}

/// The position of the first string equal to `x`, if any.
pub fn find_string_index(v: &Vec<String>, x: &String) -> (r: Option<usize>)
    ensures
        match r {
            Some(i) => {
                &&& i < v@.len()
                &&& v.deep_view()[i as int] == x@
                &&& forall|j: int| 0 <= j < i ==> v.deep_view()[j] != x@
            },
            None => forall|j: int| 0 <= j < v.deep_view().len() ==> v.deep_view()[j] != x@,
        },
{
    let mut i: usize = 0;
    while i < v.len()
        invariant
            i <= v.len(),
            forall|j: int| 0 <= j < i ==> v.deep_view()[j] != x@,
        decreases v.len() - i,
    {
        proof {
            lemma_vec_deep_view_index(*v, i as int);
        }
        if v[i] == *x {
            return Some(i);
        }
        i += 1;
    }
    None
}

/// The elements of `a` that are also in `b`, in `a`'s order.
pub fn strings_intersect(a: &Vec<String>, b: &Vec<String>) -> (r: Vec<String>)
    ensures
        r.deep_view() == a.deep_view().filter(member_of(b.deep_view())),
{
    let ghost s = a.deep_view();
    let ghost pred = member_of(b.deep_view());
    let mut out: Vec<String> = Vec::new();
    let mut i: usize = 0;
    while i < a.len()
        invariant
            s == a.deep_view(),
            pred == member_of(b.deep_view()),
            i <= a.len(),
            out.deep_view() == s.take(i as int).filter(pred),
        decreases a.len() - i,
    {
        proof {
            lemma_vec_deep_view_index(*a, i as int);
            s.take(i as int).lemma_filter_push(s[i as int], pred);
            assert(s.take(i as int + 1) =~= s.take(i as int).push(s[i as int]));
        }
        if vec_contains_string(b, &a[i]) {
            let ghost prev = out;
            let x = a[i].clone();
            out.push(x);
            proof {
                lemma_vec_deep_view_push(prev, out, x);
                assert(out.deep_view() =~= s.take(i as int).filter(pred).push(s[i as int]));
            }
        }
        i += 1;
    }
    assert(s.take(a.len() as int) =~= s);
    out
}

/// The elements of `a` that are not in `b`, in `a`'s order.
pub fn strings_difference(a: &Vec<String>, b: &Vec<String>) -> (r: Vec<String>)
    ensures
        r.deep_view() == a.deep_view().filter(non_member_of(b.deep_view())),
{
    let ghost s = a.deep_view();
    let ghost pred = non_member_of(b.deep_view());
    let mut out: Vec<String> = Vec::new();
    let mut i: usize = 0;
    while i < a.len()
        invariant
            s == a.deep_view(),
            pred == non_member_of(b.deep_view()),
            i <= a.len(),
            out.deep_view() == s.take(i as int).filter(pred),
        decreases a.len() - i,
    {
        proof {
            lemma_vec_deep_view_index(*a, i as int);
            s.take(i as int).lemma_filter_push(s[i as int], pred);
            assert(s.take(i as int + 1) =~= s.take(i as int).push(s[i as int]));
        }
        if !vec_contains_string(b, &a[i]) {
            let ghost prev = out;
            let x = a[i].clone();
            out.push(x);
            proof {
                lemma_vec_deep_view_push(prev, out, x);
                assert(out.deep_view() =~= s.take(i as int).filter(pred).push(s[i as int]));
            }
        }
        i += 1;
    }
    assert(s.take(a.len() as int) =~= s);
    out
}

/// The elements of `a`, then those of `b` not already in `a`, in order.
pub fn strings_union(a: &Vec<String>, b: &Vec<String>) -> (r: Vec<String>)
    ensures
        r.deep_view() == a.deep_view() + b.deep_view().filter(non_member_of(a.deep_view())),
{
    let mut out = clone_string_vec(a);
    let rest = strings_difference(b, a);
    let mut i: usize = 0;
    while i < rest.len()
        invariant
            i <= rest.len(),
            out.deep_view() == a.deep_view() + rest.deep_view().take(i as int),
        decreases rest.len() - i,
    {
        let ghost prev = out;
        let x = rest[i].clone();
        out.push(x);
        proof {
            lemma_vec_deep_view_index(rest, i as int);
            lemma_vec_deep_view_push(prev, out, x);
            assert(out.deep_view() =~= a.deep_view() + rest.deep_view().take(i as int + 1));
        }
        i += 1;
    }
    proof {
        assert(rest.deep_view().take(rest.len() as int) =~= rest.deep_view());
        assert(a.deep_view() + rest.deep_view().take(0) =~= a.deep_view());
    }
    out
}

/// Replaces the value at `k` in place, or appends the pair at the end.
pub fn pairs_insert(m: &mut Vec<(String, String)>, k: String, v: String)
    ensures
        final(m).deep_view() == crate::assoc::assoc_insert(old(m).deep_view(), k@, v@),
{
    let ghost prevlist = m.deep_view();
    match assoc_index_of(m, k.as_str()) {
        Some(i) => {
            let ghost prev = *m;
            let p: &mut (String, String) = &mut m[i];
            p.1 = v;
            proof {
                let newpair = (prev@[i as int].0, m@[i as int].1);
                assert(m@ == prev@.update(i as int, newpair));
                lemma_vec_deep_view_index(prev, i as int);
                lemma_vec_deep_view_update(prev, *m, i as int, newpair);
                crate::assoc::lemma_assoc_insert_found(prevlist, i as int, v@);
                assert(m.deep_view() =~= crate::assoc::assoc_insert(prevlist, k@, v@));
            }
        },
        None => {
            let ghost prev = *m;
            let x = (k, v);
            m.push(x);
            proof {
                lemma_vec_deep_view_push(prev, *m, x);
                crate::assoc::lemma_assoc_insert_absent(prevlist, x.0@, x.1@);
                assert(m.deep_view() =~= crate::assoc::assoc_insert(prevlist, x.0@, x.1@));
            }
        },
    }
}

/// Removes and returns the pair keyed by `k`, if any.
pub fn pairs_remove(m: &mut Vec<(String, String)>, k: &str) -> (r: Option<(String, String)>)
    ensures
        match r {
            Some(pair) => {
                &&& crate::assoc::assoc_get(old(m).deep_view(), k@) == Some(pair.1@)
                &&& pair.0@ == k@
                &&& final(m).deep_view() == crate::assoc::assoc_remove(old(m).deep_view(), k@)
            },
            None => {
                &&& crate::assoc::assoc_get(old(m).deep_view(), k@) is None
                &&& *final(m) == *old(m)
            },
        },
{
    let ghost prevlist = m.deep_view();
    match assoc_index_of(m, k) {
        Some(i) => {
            let ghost prev = *m;
            let pair = m.remove(i);
            proof {
                lemma_vec_deep_view_remove(prev, *m, i as int);
                crate::assoc::lemma_assoc_remove_found(prevlist, i as int);
                assert(m.deep_view() =~= crate::assoc::assoc_remove(prevlist, k@));
                crate::assoc::lemma_assoc_get_at_index(prevlist, i as int);
                lemma_vec_deep_view_index(prev, i as int);
            }
            Some(pair)
        },
        None => {
            proof {
                crate::assoc::lemma_assoc_get_absent(prevlist, k@);
            }
            None
        },
    }
}

/// The first components of a listing of pairs, in order.
pub fn pairs_keys(v: &Vec<(String, String)>) -> (r: Vec<String>)
    ensures
        r.deep_view() == crate::assoc::assoc_keys(v.deep_view()),
{
    let mut out: Vec<String> = Vec::new();
    let mut i: usize = 0;
    while i < v.len()
        invariant
            i <= v.len(),
            out.deep_view() == crate::assoc::assoc_keys(v.deep_view()).take(i as int),
        decreases v.len() - i,
    {
        let ghost prev = out;
        let x = v[i].0.clone();
        out.push(x);
        proof {
            lemma_vec_deep_view_index(*v, i as int);
            lemma_vec_deep_view_push(prev, out, x);
            assert(out.deep_view() =~= crate::assoc::assoc_keys(v.deep_view()).take(i as int + 1));
        }
        i += 1;
    }
    assert(crate::assoc::assoc_keys(v.deep_view()).take(v.len() as int) =~= crate::assoc::assoc_keys(
        v.deep_view(),
    ));
    out
}

/// The second components of a listing of pairs, in order.
pub fn pairs_values(v: &Vec<(String, String)>) -> (r: Vec<String>)
    ensures
        r.deep_view() == crate::assoc::assoc_values(v.deep_view()),
{
    let mut out: Vec<String> = Vec::new();
    let mut i: usize = 0;
    while i < v.len()
        invariant
            i <= v.len(),
            out.deep_view() == crate::assoc::assoc_values(v.deep_view()).take(i as int),
        decreases v.len() - i,
    {
        let ghost prev = out;
        let x = v[i].1.clone();
        out.push(x);
        proof {
            lemma_vec_deep_view_index(*v, i as int);
            lemma_vec_deep_view_push(prev, out, x);
            assert(out.deep_view() =~= crate::assoc::assoc_values(v.deep_view()).take(
                i as int + 1,
            ));
        }
        i += 1;
    }
    assert(crate::assoc::assoc_values(v.deep_view()).take(v.len() as int)
        =~= crate::assoc::assoc_values(v.deep_view()));
    out
}

} // verus!
