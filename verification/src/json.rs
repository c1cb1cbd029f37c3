//! Canonical JSON codec for the payload shapes the fetch hooks exchange with
//! a transport.
//!
//! The hooks move three shapes across the wire: a single record
//! (`{"name":"..."}`), an enveloped collection (`{"data":[{"id":1},...]}`),
//! and a query request body (`{"query":"..."}`). Each shape has a spec-level
//! canonical serialization, an executable serializer proved to produce it,
//! and an executable parser proved to accept exactly the canonical strings
//! and to return the serialized value — so a serialize/parse round trip is a
//! consequence of the contracts alone.
//!
//! String payloads are sequences of characters that need no JSON escaping
//! (no `"` and no `\`); that is the codec's supported domain, stated as
//! [`jstr_ok`].

use vstd::prelude::*;

verus! {

/// One element of an enveloped collection.
#[derive(Clone, Copy, Debug, PartialEq, Eq, Structural)]
pub struct Item {
    pub id: u64,
}

/// A single fetched record.
#[derive(Debug)]
pub struct Person {
    pub name: Vec<char>,
}

/// The request body of a query-backed collection fetch.
#[derive(Debug)]
pub struct SendMessageRequestBody {
    pub query: Vec<char>,
}

/// An enveloped collection response: a wrapper carrying the collection of
/// interest under its `data` field.
#[derive(Debug)]
pub struct ArrayResponse {
    pub data: Vec<Item>,
}

/// Capability of unwrapping a response into an ordered sequence of items.
pub trait IntoList {
    /// The sequence the container holds.
    spec fn list_spec(&self) -> Seq<Item>;

    /// The held items, in order.
    fn items(&self) -> (r: Vec<Item>)
        ensures
            r@ == self.list_spec(),
    ;
}

impl IntoList for ArrayResponse {
    open spec fn list_spec(&self) -> Seq<Item> {
        self.data@
    }

    fn items(&self) -> (r: Vec<Item>) {
        let mut out: Vec<Item> = Vec::new();
        let mut k: usize = 0;
        while k < self.data.len()
            invariant
                k <= self.data@.len(),
                out@ == self.data@.subrange(0, k as int),
            decreases self.data@.len() - k,
        {
            out.push(self.data[k]);
            proof {
                assert(out@ =~= self.data@.subrange(0, k + 1));
            }
            k = k + 1;
        }
        proof {
            assert(out@ =~= self.data@);
        }
        out
    }
}

/// A character that may stand inside a JSON string without escaping.
pub open spec fn jchar_ok(c: char) -> bool {
    c != '"' && c != '\\'
}

/// A string payload the codec supports: no character needs JSON escaping.
pub open spec fn jstr_ok(s: Seq<char>) -> bool {
    forall|i: int| 0 <= i < s.len() ==> jchar_ok(#[trigger] s[i])
}

/// The decimal digit character for a value below ten.
pub open spec fn dec_digit(n: u64) -> char
    recommends
        n < 10,
{
    if n == 0 {
        '0'
    } else if n == 1 {
        '1'
    } else if n == 2 {
        '2'
    } else if n == 3 {
        '3'
    } else if n == 4 {
        '4'
    } else if n == 5 {
        '5'
    } else if n == 6 {
        '6'
    } else if n == 7 {
        '7'
    } else if n == 8 {
        '8'
    } else {
        '9'
    }
}

/// Whether `c` is a decimal digit character.
pub open spec fn is_digit(c: char) -> bool {
    c == '0' || c == '1' || c == '2' || c == '3' || c == '4' || c == '5' || c == '6' || c == '7'
        || c == '8' || c == '9'
}

/// The numeric value of a decimal digit character.
pub open spec fn digit_val(c: char) -> u64
    recommends
        is_digit(c),
{
    if c == '0' {
        0
    } else if c == '1' {
        1
    } else if c == '2' {
        2
    } else if c == '3' {
        3
    } else if c == '4' {
        4
    } else if c == '5' {
        5
    } else if c == '6' {
        6
    } else if c == '7' {
        7
    } else if c == '8' {
        8
    } else {
        9
    }
}

/// Canonical decimal rendering of `n`: no sign, no leading zero.
pub open spec fn dec_of(n: u64) -> Seq<char>
    decreases n,
{
    if n < 10 {
        seq![dec_digit(n)]
    } else {
        dec_of(n / 10).push(dec_digit(n % 10))
    }
}

/// Every character of a canonical decimal rendering is a digit, the first is
/// `'0'` only for zero itself, and its value below ten round-trips through
/// [`digit_val`].
pub proof fn lemma_dec_of_shape(n: u64)
    ensures
        dec_of(n).len() >= 1,
        forall|i: int| 0 <= i < dec_of(n).len() ==> is_digit(#[trigger] dec_of(n)[i]),
        n >= 1 ==> dec_of(n)[0] != '0',
        n < 10 ==> dec_of(n) == seq![dec_digit(n)],
    decreases n,
{
    if n >= 10 {
        lemma_dec_of_shape(n / 10);
    }
}

/// The opening text of a single-record body, up to its string value.
pub open spec fn person_prefix_s() -> Seq<char> {
    seq!['{', '"', 'n', 'a', 'm', 'e', '"', ':', '"']
}

/// The opening text of a query request body, up to its string value.
pub open spec fn query_prefix_s() -> Seq<char> {
    seq!['{', '"', 'q', 'u', 'e', 'r', 'y', '"', ':', '"']
}

/// The opening text of one collection element, up to its numeric value.
pub open spec fn item_prefix_s() -> Seq<char> {
    seq!['{', '"', 'i', 'd', '"', ':']
}

/// The opening text of an envelope, up to the first element.
pub open spec fn env_prefix_s() -> Seq<char> {
    seq!['{', '"', 'd', 'a', 't', 'a', '"', ':', '[']
}

/// The closing text of a body whose value is a string.
pub open spec fn str_suffix_s() -> Seq<char> {
    seq!['"', '}']
}

/// Canonical serialization of a single record.
pub open spec fn person_json(name: Seq<char>) -> Seq<char> {
    person_prefix_s() + name + str_suffix_s()
}

/// Canonical serialization of a query request body.
pub open spec fn query_json(q: Seq<char>) -> Seq<char> {
    query_prefix_s() + q + str_suffix_s()
}

/// Canonical serialization of one collection element.
pub open spec fn item_json(n: u64) -> Seq<char> {
    item_prefix_s() + dec_of(n) + seq!['}']
}

/// Canonical comma-separated serialization of the elements themselves.
pub open spec fn items_json(items: Seq<Item>) -> Seq<char>
    decreases items.len(),
{
    if items.len() == 0 {
        Seq::empty()
    } else if items.len() == 1 {
        item_json(items[0].id)
    } else {
        item_json(items[0].id) + seq![','] + items_json(items.drop_first())
    }
}

/// Canonical serialization of an enveloped collection.
pub open spec fn envelope_json(items: Seq<Item>) -> Seq<char> {
    env_prefix_s() + items_json(items) + seq![']', '}']
}

/// Appending one element extends the canonical element list by a comma and
/// the element (or is the element alone for an empty list).
pub proof fn lemma_items_json_push(items: Seq<Item>, x: Item)
    ensures
        items.len() == 0 ==> items_json(items.push(x)) == item_json(x.id),
        items.len() >= 1 ==> items_json(items.push(x)) == items_json(items) + seq![','] + item_json(
            x.id,
        ),
    decreases items.len(),
{
    if items.len() == 0 {
        assert(items.push(x)[0] == x);
    } else if items.len() == 1 {
        assert(items.push(x).drop_first() =~= items.drop_first().push(x));
        assert(items.push(x).drop_first() =~= seq![x]);
        assert(items_json(seq![x]) == item_json(x.id));
        assert(items.push(x)[0] == items[0]);
    } else {
        assert(items.push(x).drop_first() =~= items.drop_first().push(x));
        lemma_items_json_push(items.drop_first(), x);
        assert(items.push(x)[0] == items[0]);
        assert(items_json(items.push(x)) =~= items_json(items) + seq![','] + item_json(x.id));
    }
}

/// The decimal digit character for a value below ten, executably.
fn digit_char(n: u64) -> (r: char)
    requires
        n < 10,
    ensures
        r == dec_digit(n),
{
    if n == 0 {
        '0'
    } else if n == 1 {
        '1'
    } else if n == 2 {
        '2'
    } else if n == 3 {
        '3'
    } else if n == 4 {
        '4'
    } else if n == 5 {
        '5'
    } else if n == 6 {
        '6'
    } else if n == 7 {
        '7'
    } else if n == 8 {
        '8'
    } else {
        '9'
    }
}

/// Appends the characters of `src` to `out`.
fn push_chars(out: &mut Vec<char>, src: &Vec<char>)
    ensures
        final(out)@ == old(out)@ + src@,
{
    let mut k: usize = 0;
    while k < src.len()
        invariant
            k <= src@.len(),
            out@ == old(out)@ + src@.subrange(0, k as int),
        decreases src@.len() - k,
    {
        out.push(src[k]);
        proof {
            assert(out@ =~= old(out)@ + src@.subrange(0, k + 1));
        }
        k = k + 1;
    }
    proof {
        assert(out@ =~= old(out)@ + src@);
    }
}

/// Appends the canonical decimal rendering of `n` to `out`.
fn push_dec(out: &mut Vec<char>, n: u64)
    ensures
        final(out)@ == old(out)@ + dec_of(n),
    decreases n,
{
    if n < 10 {
        out.push(digit_char(n));
        proof {
            assert(out@ =~= old(out)@ + dec_of(n));
        }
    } else {
        push_dec(out, n / 10);
        out.push(digit_char(n % 10));
        proof {
            assert(out@ =~= old(out)@ + dec_of(n));
        }
    }
}

/// The opening text of a single-record body, executably.
fn person_prefix() -> (r: Vec<char>)
    ensures
        r@ == person_prefix_s(),
{
    let mut v: Vec<char> = Vec::new();
    v.push('{');
    v.push('"');
    v.push('n');
    v.push('a');
    v.push('m');
    v.push('e');
    v.push('"');
    v.push(':');
    v.push('"');
    proof {
        assert(v@ =~= person_prefix_s());
    }
    v
}

/// The opening text of a query request body, executably.
fn query_prefix() -> (r: Vec<char>)
    ensures
        r@ == query_prefix_s(),
{
    let mut v: Vec<char> = Vec::new();
    v.push('{');
    v.push('"');
    v.push('q');
    v.push('u');
    v.push('e');
    v.push('r');
    v.push('y');
    v.push('"');
    v.push(':');
    v.push('"');
    proof {
        assert(v@ =~= query_prefix_s());
    }
    v
}

/// The opening text of one collection element, executably.
fn item_prefix() -> (r: Vec<char>)
    ensures
        r@ == item_prefix_s(),
{
    let mut v: Vec<char> = Vec::new();
    v.push('{');
    v.push('"');
    v.push('i');
    v.push('d');
    v.push('"');
    v.push(':');
    proof {
        assert(v@ =~= item_prefix_s());
    }
    v
}

/// The opening text of an envelope, executably.
fn env_prefix() -> (r: Vec<char>)
    ensures
        r@ == env_prefix_s(),
{
    let mut v: Vec<char> = Vec::new();
    v.push('{');
    v.push('"');
    v.push('d');
    v.push('a');
    v.push('t');
    v.push('a');
    v.push('"');
    v.push(':');
    v.push('[');
    proof {
        assert(v@ =~= env_prefix_s());
    }
    v
}

/// Serializes a single record to its canonical JSON text.
pub fn serialize_person(p: &Person) -> (r: Vec<char>)
    ensures
        r@ == person_json(p.name@),
{
    let mut out = person_prefix();
    push_chars(&mut out, &p.name);
    out.push('"');
    out.push('}');
    proof {
        assert(out@ =~= person_json(p.name@));
    }
    out
}

/// Serializes a query request body to its canonical JSON text.
pub fn serialize_send_message_request_body(b: &SendMessageRequestBody) -> (r: Vec<char>)
    ensures
        r@ == query_json(b.query@),
{
    let mut out = query_prefix();
    push_chars(&mut out, &b.query);
    out.push('"');
    out.push('}');
    proof {
        assert(out@ =~= query_json(b.query@));
    }
    out
}

/// Serializes an enveloped collection to its canonical JSON text.
pub fn serialize_array_response(a: &ArrayResponse) -> (r: Vec<char>)
    ensures
        r@ == envelope_json(a.data@),
{
    let mut out = env_prefix();
    let mut k: usize = 0;
    while k < a.data.len()
        invariant
            k <= a.data@.len(),
            out@ == env_prefix_s() + items_json(a.data@.subrange(0, k as int)),
        decreases a.data@.len() - k,
    {
        if k > 0 {
            out.push(',');
        }
        let ghost before = a.data@.subrange(0, k as int);
        let mut ip = item_prefix();
        push_chars(&mut out, &ip);
        push_dec(&mut out, a.data[k].id);
        out.push('}');
        proof {
            lemma_items_json_push(before, a.data@[k as int]);
            assert(before.push(a.data@[k as int]) =~= a.data@.subrange(0, k + 1));
            assert(out@ =~= env_prefix_s() + items_json(a.data@.subrange(0, k + 1)));
        }
        k = k + 1;
    }
    out.push(']');
    out.push('}');
    proof {
        assert(a.data@.subrange(0, a.data@.len() as int) =~= a.data@);
        assert(out@ =~= envelope_json(a.data@));
    }
    out
}

/// A canonical decimal rendering has one character exactly for values below
/// ten, and digit characters and their values convert back and forth.
pub proof fn lemma_dec_digit_facts()
    ensures
        forall|c: char| is_digit(c) ==> dec_digit(#[trigger] digit_val(c)) == c,
        forall|n: u64| n < 10 ==> digit_val(#[trigger] dec_digit(n)) == n && is_digit(dec_digit(n)),
        forall|n: u64| n >= 10 ==> #[trigger] dec_of(n).len() >= 2,
{
    assert forall|n: u64| n >= 10 implies #[trigger] dec_of(n).len() >= 2 by {
        lemma_dec_of_shape(n / 10);
    }
}

/// The numeric value of a digit character, or nothing for any other
/// character.
fn digit_of(c: char) -> (r: Option<u64>)
    ensures
        r matches Some(v) ==> is_digit(c) && v == digit_val(c) && v < 10,
        r is None <==> !is_digit(c),
{
    match c {
        '0' => Some(0),
        '1' => Some(1),
        '2' => Some(2),
        '3' => Some(3),
        '4' => Some(4),
        '5' => Some(5),
        '6' => Some(6),
        '7' => Some(7),
        '8' => Some(8),
        '9' => Some(9),
        _ => None,
    }
}

/// Reads the value of the digit run `s[i..j]`, which must carry no leading
/// zero; fails exactly when the run denotes a value above `u64::MAX`.
fn val_of_digits(s: &Vec<char>, i: usize, j: usize) -> (r: Option<u64>)
    requires
        i < j <= s@.len(),
        forall|m: int| i <= m < j ==> is_digit(#[trigger] s@[m]),
        s@[i as int] != '0' || j == i + 1,
    ensures
        r matches Some(n) ==> s@.subrange(i as int, j as int) == dec_of(n),
        forall|n0: u64| s@.subrange(i as int, j as int) == dec_of(n0) ==> r == Some(n0),
    decreases j - i,
{
    proof {
        lemma_dec_digit_facts();
    }
    if j - i == 1 {
        let d = digit_of(s[i]).unwrap();
        proof {
            assert(s@.subrange(i as int, j as int) =~= seq![s@[i as int]]);
            assert(s@.subrange(i as int, j as int) == dec_of(d));
            assert forall|n0: u64| s@.subrange(i as int, j as int) == dec_of(n0) implies d
                == n0 by {
                lemma_dec_of_shape(n0);
                if n0 >= 10 {
                    assert(dec_of(n0).len() >= 2);
                    assert(false);
                }
                assert(dec_of(n0)[0] == dec_digit(n0));
                assert(s@[i as int] == dec_digit(n0));
            }
        }
        Some(d)
    } else {
        let m_opt = val_of_digits(s, i, j - 1);
        match m_opt {
            None => {
                proof {
                    assert forall|n0: u64| s@.subrange(i as int, j as int) == dec_of(n0)
                        implies false by {
                        lemma_dec_digit_facts();
                        if n0 < 10 {
                            assert(dec_of(n0).len() == 1);
                            assert(false);
                        }
                        assert(s@.subrange(i as int, j as int - 1) =~= dec_of(n0).drop_last());
                        assert(dec_of(n0).drop_last() =~= dec_of(n0 / 10));
                    }
                }
                None
            },
            Some(m) => {
                let d = digit_of(s[j - 1]).unwrap();
                proof {
                    assert(s@.subrange(i as int, j as int - 1) == dec_of(m));
                    lemma_dec_of_shape(m);
                    if m == 0 {
                        assert(dec_of(0) =~= seq!['0']);
                        assert(s@.subrange(i as int, j as int - 1).len() == 1);
                        assert(s@.subrange(i as int, j as int - 1)[0] == s@[i as int]);
                        assert(s@[i as int] == '0' && j != i + 1);
                        assert(false);
                    }
                }
                if m <= (u64::MAX - d) / 10 {
                    let n = m * 10 + d;
                    proof {
                        assert(n / 10 == m && n % 10 == d);
                        assert(n >= 10);
                        assert(s@.subrange(i as int, j as int) =~= s@.subrange(
                            i as int,
                            j as int - 1,
                        ).push(s@[j - 1]));
                        assert(s@[j - 1] == dec_digit(d));
                        assert(s@.subrange(i as int, j as int) == dec_of(n));
                        assert forall|n0: u64| s@.subrange(i as int, j as int) == dec_of(n0)
                            implies n == n0 by {
                            lemma_dec_of_shape(n0);
                            if n0 < 10 {
                                assert(dec_of(n0).len() == 1);
                                assert(false);
                            }
                            assert(s@.subrange(i as int, j as int - 1) =~= dec_of(n0).drop_last());
                            assert(dec_of(n0).drop_last() =~= dec_of(n0 / 10));
                            assert(m == n0 / 10);
                            assert(s@[j - 1] == dec_of(n0).last());
                            assert(dec_of(n0).last() == dec_digit(n0 % 10));
                            assert(d == n0 % 10);
                        }
                    }
                    Some(n)
                } else {
                    proof {
                        assert forall|n0: u64| s@.subrange(i as int, j as int) == dec_of(n0)
                            implies false by {
                            lemma_dec_digit_facts();
                            if n0 < 10 {
                                assert(dec_of(n0).len() == 1);
                                assert(false);
                            }
                            assert(s@.subrange(i as int, j as int - 1) =~= dec_of(n0).drop_last());
                            assert(dec_of(n0).drop_last() =~= dec_of(n0 / 10));
                            assert(m == n0 / 10);
                            assert(s@[j - 1] == dec_of(n0).last());
                            assert(dec_of(n0).last() == dec_digit(n0 % 10));
                            assert(d == n0 % 10);
                            assert(m * 10 + d == n0);
                            assert(m * 10 <= u64::MAX - d);
                            assert(m <= (u64::MAX - d) / 10);
                        }
                    }
                    None
                }
            },
        }
    }
}

/// A subrange equality read pointwise: each character of `s` inside the
/// window equals the corresponding character of `t`.
pub proof fn lemma_eq_pointwise<T>(s: Seq<T>, i: int, t: Seq<T>)
    requires
        0 <= i,
        i + t.len() <= s.len(),
        s.subrange(i, i + t.len()) == t,
    ensures
        forall|p: int| i <= p < i + t.len() ==> s[p] == t[p - i],
{
    assert forall|p: int| i <= p < i + t.len() implies s[p] == t[p - i] by {
        assert(s.subrange(i, i + t.len())[p - i] == s[p]);
    }
}

/// A pointwise character equality assembled into a subrange equality.
pub proof fn lemma_pointwise_eq<T>(s: Seq<T>, i: int, t: Seq<T>)
    requires
        0 <= i,
        i + t.len() <= s.len(),
        forall|p: int| i <= p < i + t.len() ==> #[trigger] s[p] == t[p - i],
    ensures
        s.subrange(i, i + t.len()) == t,
{
    assert(s.subrange(i, i + t.len()) =~= t);
}

/// Whether `pat` occurs in `s` exactly at position `i`.
fn has_at(s: &Vec<char>, i: usize, pat: &Vec<char>) -> (r: bool)
    requires
        i <= s@.len(),
    ensures
        r <==> (i + pat@.len() <= s@.len() && s@.subrange(i as int, i + pat@.len()) == pat@),
{
    if pat.len() > s.len() - i {
        return false;
    }
    let slen = s.len();
    let mut k: usize = 0;
    while k < pat.len()
        invariant
            k <= pat@.len(),
            i + pat@.len() <= s@.len(),
            s@.len() == slen,
            forall|m: int| 0 <= m < k ==> s@[i + m] == pat@[m],
        decreases pat@.len() - k,
    {
        if s[i + k] != pat[k] {
            proof {
                assert(s@.subrange(i as int, i + pat@.len())[k as int] == s@[i + k]);
            }
            return false;
        }
        k = k + 1;
    }
    proof {
        assert(s@.subrange(i as int, i + pat@.len()) =~= pat@);
    }
    true
}

/// Reads a canonical decimal number starting at position `i`: the longest
/// digit run there, rejected if it is empty, carries a leading zero, or
/// denotes a value above `u64::MAX`. On success the position just past the
/// run is returned with the value.
pub fn parse_u64_at(s: &Vec<char>, i: usize) -> (r: Option<(u64, usize)>)
    requires
        i <= s@.len(),
    ensures
        r matches Some((n, j)) ==> i < j <= s@.len() && s@.subrange(i as int, j as int) == dec_of(n)
            && (j == s@.len() || !is_digit(s@[j as int])),
        forall|n0: u64|
            (i + dec_of(n0).len() <= s@.len() && s@.subrange(i as int, i + dec_of(n0).len())
                == #[trigger] dec_of(n0) && (i + dec_of(n0).len() == s@.len() || !is_digit(
                s@[i + dec_of(n0).len()],
            ))) ==> r == Some((n0, (i + dec_of(n0).len()) as usize)),
{
    let slen = s.len();
    let mut k: usize = 0;
    while i + k < s.len() && digit_of(s[i + k]).is_some()
        invariant
            i + k <= s@.len(),
            s@.len() == slen,
            forall|m: int| i <= m < i + k ==> is_digit(#[trigger] s@[m]),
        decreases s@.len() - i - k,
    {
        k = k + 1;
    }
    let j = i + k;
    proof {
        lemma_dec_digit_facts();
        assert forall|n0: u64|
            (i + dec_of(n0).len() <= s@.len() && s@.subrange(i as int, i + dec_of(n0).len())
                == #[trigger] dec_of(n0) && (i + dec_of(n0).len() == s@.len() || !is_digit(
                s@[i + dec_of(n0).len()],
            ))) implies i + dec_of(n0).len() == j by {
            lemma_dec_of_shape(n0);
            assert(forall|m: int|
                0 <= m < dec_of(n0).len() ==> s@[i + m] == #[trigger] dec_of(n0)[m]);
            if i + dec_of(n0).len() < j {
                assert(is_digit(s@[i + dec_of(n0).len()]));
                assert(false);
            }
            if i + dec_of(n0).len() > j {
                assert(s@[j as int] == dec_of(n0)[j - i]);
                assert(is_digit(s@[j as int]));
                assert(false);
            }
        }
    }
    if k == 0 {
        return None;
    }
    if k > 1 && s[i] == '0' {
        proof {
            assert forall|n0: u64| i + dec_of(n0).len() == j && s@.subrange(i as int, j as int)
                == dec_of(n0) implies false by {
                lemma_dec_of_shape(n0);
                assert(s@.subrange(i as int, j as int)[0] == s@[i as int]);
                assert(dec_of(n0)[0] == '0');
                assert(n0 == 0);
                assert(dec_of(0) =~= seq!['0']);
            }
        }
        return None;
    }
    match val_of_digits(s, i, j) {
        Some(n) => Some((n, j)),
        None => None,
    }
}

/// Reads one canonical collection element starting at position `i`,
/// returning it with the position just past its closing brace.
pub fn parse_item_at(s: &Vec<char>, i: usize) -> (r: Option<(Item, usize)>)
    requires
        i <= s@.len(),
    ensures
        r matches Some((it, j)) ==> i < j <= s@.len() && s@.subrange(i as int, j as int)
            == item_json(it.id),
        forall|n0: u64|
            (i + item_json(n0).len() <= s@.len() && s@.subrange(i as int, i + item_json(n0).len())
                == #[trigger] item_json(n0)) ==> r == Some(
                (Item { id: n0 }, (i + item_json(n0).len()) as usize),
            ),
{
    let pre = item_prefix();
    proof {
        assert forall|n0: u64|
            i + item_json(n0).len() <= s@.len() && s@.subrange(i as int, i + item_json(n0).len())
                == #[trigger] item_json(n0) implies s@.subrange(i as int, i + 6) == item_prefix_s()
            && s@.subrange(i + 6, i + 6 + dec_of(n0).len()) == dec_of(n0) && s@[i + 6 + dec_of(
            n0,
        ).len()] == '}' && i + 6 + dec_of(n0).len() < s@.len() by {
            lemma_eq_pointwise(s@, i as int, item_json(n0));
            assert forall|p: int| i <= p < i + 6 implies #[trigger] s@[p] == item_prefix_s()[p
                - i] by {
                assert(s@[p] == item_json(n0)[p - i]);
                assert(item_json(n0)[p - i] == item_prefix_s()[p - i]);
            }
            lemma_pointwise_eq(s@, i as int, item_prefix_s());
            assert forall|p: int| i + 6 <= p < i + 6 + dec_of(n0).len() implies #[trigger] s@[p]
                == dec_of(n0)[p - (i + 6)] by {
                assert(s@[p] == item_json(n0)[p - i]);
                assert(item_json(n0)[p - i] == dec_of(n0)[p - i - 6]);
            }
            lemma_pointwise_eq(s@, i as int + 6, dec_of(n0));
            assert(s@[i as int + 6 + dec_of(n0).len() as int] == item_json(n0)[6 + dec_of(
                n0,
            ).len() as int]);
            assert(item_json(n0)[6 + dec_of(n0).len() as int] == '}');
        }
    }
    if !has_at(s, i, &pre) {
        return None;
    }
    proof {
        assert(item_prefix_s().len() == 6);
    }
    let slen = s.len();
    match parse_u64_at(s, i + 6) {
        None => {
            proof {
                lemma_dec_digit_facts();
            }
            None
        },
        Some((n, j)) => {
            proof {
                lemma_dec_digit_facts();
            }
            if j < s.len() && s[j] == '}' {
                proof {
                    assert(s@.subrange(i as int, j + 1) =~= item_prefix_s() + dec_of(n)
                        + seq!['}']);
                }
                Some((Item { id: n }, j + 1))
            } else {
                None
            }
        },
    }
}

/// A subrange equal to a concatenation splits into two adjacent subranges.
pub proof fn lemma_split_window<T>(s: Seq<T>, i: int, a: Seq<T>, b: Seq<T>)
    requires
        0 <= i,
        i + a.len() + b.len() <= s.len(),
        s.subrange(i, i + a.len() + b.len()) == a + b,
    ensures
        s.subrange(i, i + a.len()) == a,
        s.subrange(i + a.len(), i + a.len() + b.len()) == b,
{
    lemma_eq_pointwise(s, i, a + b);
    assert forall|p: int| i <= p < i + a.len() implies #[trigger] s[p] == a[p - i] by {
        assert(s[p] == (a + b)[p - i]);
    }
    lemma_pointwise_eq(s, i, a);
    assert forall|p: int| i + a.len() <= p < i + a.len() + b.len() implies #[trigger] s[p] == b[p
        - (i + a.len())] by {
        assert(s[p] == (a + b)[p - i]);
    }
    lemma_pointwise_eq(s, i + a.len(), b);
}

/// The canonical element list of two or more elements is the first element,
/// a comma, and the canonical list of the rest.
pub proof fn lemma_items_json_cons(items: Seq<Item>)
    requires
        items.len() >= 2,
    ensures
        items_json(items) == item_json(items[0].id) + (seq![','] + items_json(
            items.drop_first(),
        )),
        items_json(items).len() == item_json(items[0].id).len() + 1 + items_json(
            items.drop_first(),
        ).len(),
{
    assert(items_json(items) == item_json(items[0].id) + seq![','] + items_json(
        items.drop_first(),
    ));
    assert(items_json(items) =~= item_json(items[0].id) + (seq![','] + items_json(
        items.drop_first(),
    )));
}

/// Reads a non-empty canonical element list starting at position `i`,
/// appending the elements to `out` in order; stops just before the first
/// position after an element that does not continue the list with a comma.
#[verifier::rlimit(100)]
fn parse_items_rec(s: &Vec<char>, i: usize, out: &mut Vec<Item>) -> (r: Option<usize>)
    requires
        i <= s@.len(),
    ensures
        r matches Some(j) ==> i < j <= s@.len() && final(out)@.len() > old(out)@.len()
            && final(out)@.subrange(0, old(out)@.len() as int) == old(out)@
            && s@.subrange(i as int, j as int)
            == items_json(final(out)@.skip(old(out)@.len() as int)) && (j == s@.len() || s@[j as int]
            != ','),
        forall|items0: Seq<Item>|
            (items0.len() >= 1 && i + items_json(items0).len() <= s@.len() && s@.subrange(
                i as int,
                i + items_json(items0).len(),
            ) == #[trigger] items_json(items0) && (i + items_json(items0).len() == s@.len()
                || s@[i + items_json(items0).len()] != ',')) ==> r == Some(
                (i + items_json(items0).len()) as usize,
            ) && final(out)@ == old(out)@ + items0,
    decreases s@.len() - i,
{
    proof {
        assert forall|items0: Seq<Item>|
            items0.len() >= 1 && i + items_json(items0).len() <= s@.len() && s@.subrange(
                i as int,
                i + items_json(items0).len(),
            ) == #[trigger] items_json(items0) implies i + item_json(items0[0].id).len() <= s@.len()
            && s@.subrange(i as int, i + item_json(items0[0].id).len()) == item_json(
            items0[0].id,
        ) by {
            if items0.len() == 1 {
                assert(items_json(items0) == item_json(items0[0].id));
            } else {
                lemma_items_json_cons(items0);
                lemma_split_window(
                    s@,
                    i as int,
                    item_json(items0[0].id),
                    seq![','] + items_json(items0.drop_first()),
                );
            }
        }
    }
    match parse_item_at(s, i) {
        None => None,
        Some((it, j1)) => {
            out.push(it);
            if j1 < s.len() && s[j1] == ',' {
                let r2 = parse_items_rec(s, j1 + 1, out);
                proof {
                    assert forall|items0: Seq<Item>|
                        (items0.len() >= 1 && i + items_json(items0).len() <= s@.len()
                            && s@.subrange(i as int, i + items_json(items0).len())
                            == #[trigger] items_json(items0) && (i + items_json(items0).len()
                            == s@.len() || s@[i + items_json(items0).len()] != ',')) implies r2
                        == Some((i + items_json(items0).len()) as usize) && final(out)@ == old(out)@
                        + items0 by {
                        if items0.len() == 1 {
                            assert(items_json(items0) == item_json(items0[0].id));
                            assert(j1 == i + items_json(items0).len());
                            assert(false);
                        } else {
                            lemma_items_json_cons(items0);
                            lemma_split_window(
                                s@,
                                i as int,
                                item_json(items0[0].id),
                                seq![','] + items_json(items0.drop_first()),
                            );
                            assert(j1 == i + item_json(items0[0].id).len());
                            lemma_split_window(
                                s@,
                                j1 as int,
                                seq![','],
                                items_json(items0.drop_first()),
                            );
                            assert(s@.subrange(j1 as int, j1 + 1) == seq![',']);
                            assert(s@.subrange(j1 + 1, j1 + 1 + items_json(
                                items0.drop_first(),
                            ).len()) == items_json(items0.drop_first()));
                            assert(items0.drop_first().len() >= 1);
                            assert(j1 + 1 + items_json(items0.drop_first()).len() == i + items_json(
                                items0,
                            ).len());
                            assert(old(out)@.push(it) + items0.drop_first() =~= old(out)@ + items0);
                        }
                    }
                }
                match r2 {
                    None => None,
                    Some(j) => {
                        proof {
                            let mid = old(out)@.push(it);
                            let parsed2 = final(out)@.skip(mid.len() as int);
                            lemma_eq_pointwise(final(out)@, 0, final(out)@.subrange(0, mid.len() as int));
                            assert(final(out)@.subrange(0, old(out)@.len() as int) =~= old(out)@);
                            let parsed = final(out)@.skip(old(out)@.len() as int);
                            assert(parsed =~= seq![it] + parsed2);
                            assert(parsed.len() >= 2);
                            assert(parsed[0] == it);
                            assert(parsed.drop_first() =~= parsed2);
                            assert(items_json(parsed) == item_json(it.id) + seq![','] + items_json(
                                parsed2,
                            ));
                            assert(s@.subrange(i as int, j as int) =~= s@.subrange(i as int, j1 as int)
                                + s@.subrange(j1 as int, j1 + 1) + s@.subrange(j1 + 1, j as int));
                            assert(s@.subrange(j1 as int, j1 + 1) =~= seq![',']);
                            assert(s@.subrange(i as int, j as int) == items_json(parsed));
                        }
                        Some(j)
                    },
                }
            } else {
                proof {
                    let parsed = final(out)@.skip(old(out)@.len() as int);
                    assert(final(out)@ == old(out)@.push(it));
                    assert(final(out)@.subrange(0, old(out)@.len() as int) =~= old(out)@);
                    assert(parsed =~= seq![it]);
                    assert(items_json(parsed) == item_json(it.id));
                    assert forall|items0: Seq<Item>|
                        (items0.len() >= 1 && i + items_json(items0).len() <= s@.len()
                            && s@.subrange(i as int, i + items_json(items0).len())
                            == #[trigger] items_json(items0) && (i + items_json(items0).len()
                            == s@.len() || s@[i + items_json(items0).len()] != ',')) implies j1 == i
                        + items_json(items0).len() && final(out)@ == old(out)@ + items0 by {
                        if items0.len() >= 2 {
                            lemma_items_json_cons(items0);
                            lemma_split_window(
                                s@,
                                i as int,
                                item_json(items0[0].id),
                                seq![','] + items_json(items0.drop_first()),
                            );
                            assert(j1 == i + item_json(items0[0].id).len());
                            lemma_eq_pointwise(
                                s@,
                                j1 as int,
                                seq![','] + items_json(items0.drop_first()),
                            );
                            assert(s@[j1 as int] == (seq![','] + items_json(
                                items0.drop_first(),
                            ))[0]);
                            assert(s@[j1 as int] == ',');
                            assert(j1 < s@.len());
                            assert(false);
                        }
                        assert(items_json(items0) == item_json(items0[0].id));
                        assert(it == items0[0]);
                        assert(old(out)@.push(it) =~= old(out)@ + items0);
                    }
                }
                Some(j1)
            }
        },
    }
}

/// Parses an enveloped collection from its canonical JSON text: accepts
/// exactly the canonical serializations and returns the serialized elements
/// in order.
pub fn parse_array_response(s: &Vec<char>) -> (r: Option<ArrayResponse>)
    ensures
        r matches Some(a) ==> s@ == envelope_json(a.data@),
        forall|items0: Seq<Item>|
            s@ == #[trigger] envelope_json(items0) ==> (r matches Some(a) && a.data@
                == items0),
{
    let pre = env_prefix();
    proof {
        assert(env_prefix_s().len() == 9);
        assert forall|items0: Seq<Item>| s@ == #[trigger] envelope_json(items0) implies s@.len()
            == 11 + items_json(items0).len() && s@.subrange(0, 9) == env_prefix_s() && s@.subrange(
            9,
            9 + items_json(items0).len() as int,
        ) == items_json(items0) && s@[9 + items_json(items0).len() as int] == ']' && s@[10
            + items_json(items0).len() as int] == '}' by {
            assert(envelope_json(items0) =~= env_prefix_s() + (items_json(items0) + seq![
                ']',
                '}',
            ]));
            assert(s@.subrange(0, s@.len() as int) =~= s@);
            lemma_split_window(
                s@,
                0,
                env_prefix_s(),
                items_json(items0) + seq![']', '}'],
            );
            lemma_split_window(s@, 9, items_json(items0), seq![']', '}']);
            lemma_eq_pointwise(s@, 9 + items_json(items0).len() as int, seq![']', '}']);
        }
        assert forall|items0: Seq<Item>| items0.len() >= 1 implies #[trigger] items_json(
            items0,
        )[0] == '{' by {
            assert(item_json(items0[0].id)[0] == item_prefix_s()[0]);
        }
    }
    if !has_at(s, 0, &pre) {
        return None;
    }
    let slen = s.len();
    if 9 < slen && s[9] == ']' {
        if slen == 11 && s[10] == '}' {
            let a = ArrayResponse { data: Vec::new() };
            proof {
                assert(items_json(a.data@) == Seq::<char>::empty());
                assert(s@ =~= envelope_json(a.data@));
            }
            Some(a)
        } else {
            None
        }
    } else {
        let mut data: Vec<Item> = Vec::new();
        let r2 = parse_items_rec(s, 9, &mut data);
        proof {
            assert forall|items0: Seq<Item>| s@ == #[trigger] envelope_json(items0) implies r2
                == Some((9 + items_json(items0).len()) as usize) && data@ == items0 by {
                if items0.len() == 0 {
                    assert(items_json(items0).len() == 0);
                    assert(s@[9] == ']');
                    assert(s@.len() == 11);
                    assert(false);
                }
                assert(s@[9 + items_json(items0).len() as int] == ']');
            }
        }
        match r2 {
            None => None,
            Some(j) => {
                if slen >= 2 && j == slen - 2 && s[j] == ']' && s[j + 1] == '}' {
                    proof {
                        assert(data@ =~= data@.skip(0));
                        assert(s@.subrange(9, j as int) == items_json(data@));
                        assert(s@ =~= envelope_json(data@));
                    }
                    Some(ArrayResponse { data })
                } else {
                    None
                }
            },
        }
    }
}

/// Reads a supported JSON string body that runs from `start` to the end of
/// `s` as `...value"}`: the value's characters followed by the closing quote
/// and brace.
fn parse_string_tail(s: &Vec<char>, start: usize) -> (r: Option<Vec<char>>)
    requires
        start <= s@.len(),
    ensures
        r matches Some(v) ==> jstr_ok(v@) && s@.len() == start + v@.len() + 2 && s@.subrange(
            start as int,
            s@.len() as int,
        ) == v@ + str_suffix_s(),
        forall|t: Seq<char>|
            (jstr_ok(t) && s@.len() == start + t.len() + 2 && s@.subrange(
                start as int,
                s@.len() as int,
            ) == #[trigger] (t + str_suffix_s())) ==> (r matches Some(v) && v@ == t),
{
    proof {
        assert forall|t: Seq<char>|
            jstr_ok(t) && s@.len() == start + t.len() + 2 && s@.subrange(
                start as int,
                s@.len() as int,
            ) == #[trigger] (t + str_suffix_s()) implies (forall|m: int|
            start <= m < start + t.len() ==> #[trigger] s@[m] == t[m - start] && jchar_ok(s@[m]))
            && s@[start + t.len()] == '"' && s@[start + t.len() + 1] == '}' by {
            lemma_split_window(s@, start as int, t, str_suffix_s());
            lemma_eq_pointwise(s@, start as int, t);
            lemma_eq_pointwise(s@, start + t.len(), str_suffix_s());
        }
    }
    let slen = s.len();
    let mut i = start;
    let mut val: Vec<char> = Vec::new();
    #[verifier::loop_isolation(false)]
    while i < slen && s[i] != '"'
        invariant
            start <= i <= slen,
            s@.len() == slen,
            val@ == s@.subrange(start as int, i as int),
            forall|m: int| start <= m < i ==> jchar_ok(#[trigger] s@[m]),
        decreases slen - i,
    {
        if s[i] == '\\' {
            proof {
                assert forall|t: Seq<char>|
                    jstr_ok(t) && s@.len() == start + t.len() + 2 && s@.subrange(
                        start as int,
                        s@.len() as int,
                    ) == #[trigger] (t + str_suffix_s()) implies false by {
                    if i < start + t.len() {
                        assert(jchar_ok(s@[i as int]));
                    } else if i > start + t.len() {
                        assert(jchar_ok(s@[start + t.len()]));
                    }
                }
            }
            return None;
        }
        val.push(s[i]);
        proof {
            assert(val@ =~= s@.subrange(start as int, i + 1));
        }
        i = i + 1;
    }
    if i == slen {
        proof {
            assert forall|t: Seq<char>|
                jstr_ok(t) && s@.len() == start + t.len() + 2 && s@.subrange(
                    start as int,
                    s@.len() as int,
                ) == #[trigger] (t + str_suffix_s()) implies false by {
                assert(jchar_ok(s@[start + t.len()]));
            }
        }
        return None;
    }
    if slen - i == 2 && s[i + 1] == '}' {
        proof {
            assert(s@.subrange(start as int, slen as int) =~= val@ + str_suffix_s());
            assert forall|t: Seq<char>|
                jstr_ok(t) && s@.len() == start + t.len() + 2 && s@.subrange(
                    start as int,
                    s@.len() as int,
                ) == #[trigger] (t + str_suffix_s()) implies val@ == t by {
                if i < start + t.len() {
                    assert(jchar_ok(s@[i as int]));
                    assert(false);
                }
                if i > start + t.len() {
                    assert(jchar_ok(s@[start + t.len()]));
                    assert(false);
                }
                assert(val@ =~= t);
            }
        }
        Some(val)
    } else {
        proof {
            assert forall|t: Seq<char>|
                jstr_ok(t) && s@.len() == start + t.len() + 2 && s@.subrange(
                    start as int,
                    s@.len() as int,
                ) == #[trigger] (t + str_suffix_s()) implies false by {
                if i < start + t.len() {
                    assert(jchar_ok(s@[i as int]));
                    assert(false);
                }
                if i > start + t.len() {
                    assert(jchar_ok(s@[start + t.len()]));
                    assert(false);
                }
            }
        }
        None
    }
}

/// Parses a single record from its canonical JSON text: accepts exactly the
/// canonical serializations of supported names and returns the serialized
/// name.
pub fn parse_person(s: &Vec<char>) -> (r: Option<Person>)
    ensures
        r matches Some(p) ==> jstr_ok(p.name@) && s@ == person_json(p.name@),
        forall|name0: Seq<char>|
            (jstr_ok(name0) && s@ == #[trigger] person_json(name0)) ==> (r matches Some(p)
                && p.name@ == name0),
{
    let pre = person_prefix();
    proof {
        assert(person_prefix_s().len() == 9);
        assert forall|name0: Seq<char>|
            jstr_ok(name0) && s@ == #[trigger] person_json(name0) implies s@.len() == 11
            + name0.len() && s@.subrange(0, 9) == person_prefix_s() && s@.subrange(
            9,
            s@.len() as int,
        ) == name0 + str_suffix_s() by {
            assert(person_json(name0) =~= person_prefix_s() + (name0 + str_suffix_s()));
            assert(s@.subrange(0, s@.len() as int) =~= s@);
            lemma_split_window(s@, 0, person_prefix_s(), name0 + str_suffix_s());
        }
    }
    if !has_at(s, 0, &pre) {
        return None;
    }
    match parse_string_tail(s, 9) {
        None => None,
        Some(v) => {
            proof {
                lemma_eq_pointwise(s@, 0, person_prefix_s());
                lemma_eq_pointwise(s@, 9, v@ + str_suffix_s());
                assert(s@ =~= person_json(v@));
            }
            Some(Person { name: v })
        },
    }
}

/// Parses a query request body from its canonical JSON text: accepts exactly
/// the canonical serializations of supported queries and returns the
/// serialized query.
pub fn parse_send_message_request_body(s: &Vec<char>) -> (r: Option<SendMessageRequestBody>)
    ensures
        r matches Some(b) ==> jstr_ok(b.query@) && s@ == query_json(b.query@),
        forall|q0: Seq<char>|
            (jstr_ok(q0) && s@ == #[trigger] query_json(q0)) ==> (r matches Some(b) && b.query@
                == q0),
{
    let pre = query_prefix();
    proof {
        assert(query_prefix_s().len() == 10);
        assert forall|q0: Seq<char>|
            jstr_ok(q0) && s@ == #[trigger] query_json(q0) implies s@.len() == 12 + q0.len()
            && s@.subrange(0, 10) == query_prefix_s() && s@.subrange(10, s@.len() as int) == q0
            + str_suffix_s() by {
            assert(query_json(q0) =~= query_prefix_s() + (q0 + str_suffix_s()));
            assert(s@.subrange(0, s@.len() as int) =~= s@);
            lemma_split_window(s@, 0, query_prefix_s(), q0 + str_suffix_s());
        }
    }
    if !has_at(s, 0, &pre) {
        return None;
    }
    match parse_string_tail(s, 10) {
        None => None,
        Some(v) => {
            proof {
                lemma_eq_pointwise(s@, 0, query_prefix_s());
                lemma_eq_pointwise(s@, 10, v@ + str_suffix_s());
                assert(s@ =~= query_json(v@));
            }
            Some(SendMessageRequestBody { query: v })
        },
    }
}


/// Canonical decimal renderings are distinct for distinct values.
pub proof fn lemma_dec_of_injective(m: u64, n: u64)
    requires
        dec_of(m) == dec_of(n),
    ensures
        m == n,
    decreases m,
{
    lemma_dec_digit_facts();
    if m < 10 && n < 10 {
        assert(dec_of(m)[0] == dec_digit(m) && dec_of(n)[0] == dec_digit(n));
        assert(digit_val(dec_digit(m)) == digit_val(dec_digit(n)));
    } else if m < 10 {
        assert(dec_of(m).len() == 1 && dec_of(n).len() >= 2);
    } else if n < 10 {
        assert(dec_of(m).len() >= 2 && dec_of(n).len() == 1);
    } else {
        assert(dec_of(m).drop_last() =~= dec_of(m / 10));
        assert(dec_of(n).drop_last() =~= dec_of(n / 10));
        lemma_dec_of_injective(m / 10, n / 10);
        assert(dec_of(m).last() == dec_digit(m % 10));
        assert(dec_of(n).last() == dec_digit(n % 10));
        assert(digit_val(dec_digit(m % 10)) == digit_val(dec_digit(n % 10)));
    }
}

/// Canonical element lists are distinct for distinct element sequences.
#[verifier::rlimit(100)]
pub proof fn lemma_items_json_injective(a: Seq<Item>, b: Seq<Item>)
    requires
        items_json(a) == items_json(b),
    ensures
        a == b,
    decreases a.len(),
{
    let s = items_json(a);
    if a.len() == 0 || b.len() == 0 {
        if a.len() == 0 && b.len() > 0 {
            lemma_dec_of_shape(b[0].id);
        }
        if b.len() == 0 && a.len() > 0 {
            lemma_dec_of_shape(a[0].id);
        }
        assert(a =~= b);
    } else {
        let da = dec_of(a[0].id);
        let db = dec_of(b[0].id);
        lemma_dec_of_shape(a[0].id);
        lemma_dec_of_shape(b[0].id);
        let ia = item_json(a[0].id);
        let ib = item_json(b[0].id);
        assert(forall|p: int| 0 <= p < ia.len() ==> #[trigger] s[p] == ia[p]) by {
            if a.len() == 1 {
            } else {
                assert forall|p: int| 0 <= p < ia.len() implies #[trigger] s[p] == ia[p] by {
                    assert(s[p] == (ia + seq![','] + items_json(a.drop_first()))[p]);
                }
            }
        }
        assert(forall|p: int| 0 <= p < ib.len() ==> #[trigger] s[p] == ib[p]) by {
            if b.len() == 1 {
            } else {
                assert forall|p: int| 0 <= p < ib.len() implies #[trigger] s[p] == ib[p] by {
                    assert(s[p] == (ib + seq![','] + items_json(b.drop_first()))[p]);
                }
            }
        }
        assert(ia.len() == 6 + da.len() + 1);
        assert(ib.len() == 6 + db.len() + 1);
        if da.len() < db.len() {
            assert(ia[6 + da.len() as int] == '}');
            assert(ib[6 + da.len() as int] == db[da.len() as int]);
            assert(is_digit(db[da.len() as int]));
            assert(ia.len() <= s.len() && ib.len() <= s.len());
            assert(s[6 + da.len() as int] == '}' && is_digit(s[6 + da.len() as int]));
            assert(false);
        }
        if db.len() < da.len() {
            assert(ib[6 + db.len() as int] == '}');
            assert(ia[6 + db.len() as int] == da[db.len() as int]);
            assert(is_digit(da[db.len() as int]));
            assert(s[6 + db.len() as int] == '}' && is_digit(s[6 + db.len() as int]));
            assert(false);
        }
        assert(da.len() == db.len());
        assert forall|p: int| 0 <= p < da.len() implies #[trigger] da[p] == db[p] by {
            assert(ia[6 + p] == da[p] && ib[6 + p] == db[p]);
            assert(s[6 + p] == da[p] && s[6 + p] == db[p]);
        }
        assert(da =~= db);
        lemma_dec_of_injective(a[0].id, b[0].id);
        assert(a[0] == b[0]);
        if a.len() == 1 && b.len() == 1 {
            assert(a =~= b);
        } else if a.len() == 1 {
            assert(s.len() == ia.len());
            assert(s.len() == ib.len() + 1 + items_json(b.drop_first()).len());
            lemma_dec_of_shape(b.drop_first()[0].id);
            assert(items_json(b.drop_first()).len() > 0);
            assert(false);
        } else if b.len() == 1 {
            assert(s.len() == ib.len());
            assert(s.len() == ia.len() + 1 + items_json(a.drop_first()).len());
            lemma_dec_of_shape(a.drop_first()[0].id);
            assert(items_json(a.drop_first()).len() > 0);
            assert(false);
        } else {
            assert(s == ia + seq![','] + items_json(a.drop_first()));
            assert(s == ib + seq![','] + items_json(b.drop_first()));
            assert(s.len() == ia.len() + 1 + items_json(a.drop_first()).len());
            assert(s.len() == ib.len() + 1 + items_json(b.drop_first()).len());
            assert(items_json(a.drop_first()).len() == items_json(b.drop_first()).len());
            assert forall|p: int| 0 <= p < items_json(a.drop_first()).len() implies #[trigger]
                items_json(a.drop_first())[p] == items_json(b.drop_first())[p] by {
                assert((ia + seq![','] + items_json(a.drop_first()))[ia.len() + 1 + p]
                    == items_json(a.drop_first())[p]);
                assert((ib + seq![','] + items_json(b.drop_first()))[ib.len() + 1 + p]
                    == items_json(b.drop_first())[p]);
                assert(s[ia.len() + 1 + p] == items_json(a.drop_first())[p]);
                assert(s[ib.len() + 1 + p] == items_json(b.drop_first())[p]);
            }
            assert(items_json(a.drop_first()) =~= items_json(b.drop_first()));
            lemma_items_json_injective(a.drop_first(), b.drop_first());
            assert forall|p: int| 0 <= p < a.len() implies a[p] == b[p] by {
                if p >= 1 {
                    assert(a.drop_first()[p - 1] == a[p]);
                    assert(b.drop_first()[p - 1] == b[p]);
                }
            }
            assert(a =~= b);
        }
    }
}

/// Canonical envelopes are distinct for distinct element sequences: with
/// the parsers' contracts, a serialize/parse round trip returns the value
/// serialized and nothing else.
pub proof fn lemma_envelope_json_injective(a: Seq<Item>, b: Seq<Item>)
    requires
        envelope_json(a) == envelope_json(b),
    ensures
        a == b,
{
    let s = envelope_json(a);
    assert(s == env_prefix_s() + items_json(a) + seq![']', '}']);
    assert(s == env_prefix_s() + items_json(b) + seq![']', '}']);
    assert(s.len() == 11 + items_json(a).len());
    assert(s.len() == 11 + items_json(b).len());
    assert(items_json(a).len() == items_json(b).len());
    assert forall|p: int| 0 <= p < items_json(a).len() implies #[trigger] items_json(a)[p]
        == items_json(b)[p] by {
        assert((env_prefix_s() + items_json(a) + seq![']', '}'])[9 + p] == items_json(a)[p]);
        assert((env_prefix_s() + items_json(b) + seq![']', '}'])[9 + p] == items_json(b)[p]);
    }
    assert(items_json(a) =~= items_json(b));
    lemma_items_json_injective(a, b);
}

/// Whether `s` is the canonical JSON text of some supported single record.
pub open spec fn person_parsable(s: Seq<char>) -> bool {
    exists|name: Seq<char>| jstr_ok(name) && s == person_json(name)
}

/// The name of the supported single record `s` is the canonical JSON text
/// of.
pub open spec fn person_name_of(s: Seq<char>) -> Seq<char> {
    choose|name: Seq<char>| jstr_ok(name) && s == person_json(name)
}

/// Whether `s` is the canonical JSON text of some enveloped collection.
pub open spec fn envelope_parsable(s: Seq<char>) -> bool {
    exists|items: Seq<Item>| s == envelope_json(items)
}

/// The elements of the enveloped collection `s` is the canonical JSON text
/// of.
pub open spec fn envelope_items_of(s: Seq<char>) -> Seq<Item> {
    choose|items: Seq<Item>| s == envelope_json(items)
}

/// Canonical single records are distinct for distinct names.
pub proof fn lemma_person_json_injective(a: Seq<char>, b: Seq<char>)
    requires
        person_json(a) == person_json(b),
    ensures
        a == b,
{
    let s = person_json(a);
    assert(s.len() == 11 + a.len() && s.len() == 11 + b.len());
    assert forall|p: int| 0 <= p < a.len() implies a[p] == b[p] by {
        assert((person_prefix_s() + a + str_suffix_s())[9 + p] == a[p]);
        assert((person_prefix_s() + b + str_suffix_s())[9 + p] == b[p]);
    }
    assert(a =~= b);
}

/// Round trip for single records: reading back the canonical serialization
/// of any supported name yields that name and nothing else.
pub proof fn lemma_person_round_trip(name: Seq<char>)
    requires
        jstr_ok(name),
    ensures
        person_parsable(person_json(name)),
        person_name_of(person_json(name)) == name,
{
    assert(person_parsable(person_json(name)));
    let w = person_name_of(person_json(name));
    assert(jstr_ok(w) && person_json(name) == person_json(w));
    lemma_person_json_injective(w, name);
}

/// Round trip for enveloped collections: reading back the canonical
/// serialization of any element sequence yields that sequence and nothing
/// else.
pub proof fn lemma_envelope_round_trip(items: Seq<Item>)
    ensures
        envelope_parsable(envelope_json(items)),
        envelope_items_of(envelope_json(items)) == items,
{
    assert(envelope_parsable(envelope_json(items)));
    let w = envelope_items_of(envelope_json(items));
    assert(envelope_json(items) == envelope_json(w));
    lemma_envelope_json_injective(w, items);
}

} // verus!
