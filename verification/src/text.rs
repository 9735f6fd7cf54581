//! Identifier text: ASCII case folding, byte-wise ordering and the
//! sorted, case-insensitively deduplicated name lists used for completions
//! and "did you mean?" candidates.

use vstd::prelude::*;
use vstd::utf8::*;

verus! {

broadcast use vstd::utf8::encode_utf8_decode_utf8;

/// ASCII lowercase of one character; every other character is unchanged.
pub open spec fn lower_char(c: char) -> char {
    if 65 <= (c as u32) && (c as u32) <= 90 {
        ((c as u32) + 32) as char
    } else {
        c
    }
}

/// ASCII lowercase of a character sequence.
pub open spec fn lower_chars(s: Seq<char>) -> Seq<char> {
    s.map_values(|c: char| lower_char(c))
}

/// ASCII lowercase of one byte.
pub open spec fn lower_byte(b: u8) -> u8 {
    if 65 <= b && b <= 90 {
        (b + 32) as u8
    } else {
        b
    }
}

/// ASCII lowercase of a byte sequence.
pub open spec fn lower_bytes(s: Seq<u8>) -> Seq<u8> {
    s.map_values(|b: u8| lower_byte(b))
}

/// Two identifiers that differ only in ASCII letter case.
pub open spec fn same_ignoring_case(a: Seq<char>, b: Seq<char>) -> bool {
    lower_chars(a) == lower_chars(b)
}

/// The UTF-8 bytes of a character sequence.
pub open spec fn utf8(s: Seq<char>) -> Seq<u8> {
    encode_utf8(s)
}

/// The ordering key of an identifier: the bytes of its ASCII-lowercase form.
#[verifier::opaque]
pub open spec fn fold_key(s: Seq<char>) -> Seq<u8> {
    encode_utf8(lower_chars(s))
}

/// Lexicographic byte order, the order of `str` and `String`.
pub open spec fn bytes_lt(a: Seq<u8>, b: Seq<u8>) -> bool
    decreases a.len(),
{
    if a.len() == 0 {
        b.len() > 0
    } else if b.len() == 0 {
        false
    } else if a[0] != b[0] {
        a[0] < b[0]
    } else {
        bytes_lt(a.drop_first(), b.drop_first())
    }
}

/// Elements strictly increasing by their folded key (so no two share a key).
pub open spec fn strictly_sorted_by_key(s: Seq<Seq<char>>) -> bool {
    forall|i: int, j: int| 0 <= i < j < s.len() ==> bytes_lt(#[trigger] fold_key(s[i]), #[trigger] fold_key(s[j]))
}

/// `input[j]` is the first element of `input` with its folded key.
pub open spec fn first_with_key(input: Seq<Seq<char>>, j: int) -> bool {
    &&& 0 <= j < input.len()
    &&& forall|k: int| 0 <= k < j ==> fold_key(#[trigger] input[k]) != fold_key(input[j])
}

/// Some element of `out` has folded key `k`.
pub open spec fn key_listed(out: Seq<Seq<char>>, k: Seq<u8>) -> bool {
    exists|i: int| 0 <= i < out.len() && fold_key(#[trigger] out[i]) == k
}

/// `s` is the first element of `input` with its folded key.
pub open spec fn drawn_first(input: Seq<Seq<char>>, s: Seq<char>) -> bool {
    exists|j: int| #[trigger] first_with_key(input, j) && input[j] == s
}

/// `out` lists, in folded-key order, the first element of `input` for each
/// distinct folded key, and nothing else.
pub open spec fn is_key_summary(out: Seq<Seq<char>>, input: Seq<Seq<char>>) -> bool {
    &&& strictly_sorted_by_key(out)
    &&& forall|i: int| 0 <= i < out.len() ==> #[trigger] drawn_first(input, out[i])
    &&& forall|j: int| 0 <= j < input.len() ==> #[trigger] key_listed(out, fold_key(input[j]))
}

/// The views of a sequence of strings.
pub open spec fn string_views(v: Seq<String>) -> Seq<Seq<char>> {
    v.map_values(|s: String| s@)
}

pub proof fn lemma_bytes_lt_irreflexive(a: Seq<u8>)
    ensures
        !bytes_lt(a, a),
    decreases a.len(),
{
    if a.len() > 0 {
        lemma_bytes_lt_irreflexive(a.drop_first());
    }
}

pub proof fn lemma_bytes_lt_transitive(a: Seq<u8>, b: Seq<u8>, c: Seq<u8>)
    requires
        bytes_lt(a, b),
        bytes_lt(b, c),
    ensures
        bytes_lt(a, c),
    decreases a.len(),
{
    if a.len() > 0 && b.len() > 0 && c.len() > 0 {
        if a[0] == b[0] && b[0] == c[0] {
            lemma_bytes_lt_transitive(a.drop_first(), b.drop_first(), c.drop_first());
        }
    }
}

pub proof fn lemma_bytes_lt_total(a: Seq<u8>, b: Seq<u8>)
    ensures
        a == b || bytes_lt(a, b) || bytes_lt(b, a),
    decreases a.len(),
{
    if a.len() == 0 || b.len() == 0 {
        if a.len() == 0 && b.len() == 0 {
            assert(a =~= b);
        }
    } else if a[0] == b[0] {
        lemma_bytes_lt_total(a.drop_first(), b.drop_first());
        if a.drop_first() == b.drop_first() {
            assert(a =~= seq![a[0]] + a.drop_first());
            assert(b =~= seq![b[0]] + b.drop_first());
        }
    }
}

pub proof fn lemma_bytes_lt_asymmetric(a: Seq<u8>, b: Seq<u8>)
    requires
        bytes_lt(a, b),
    ensures
        !bytes_lt(b, a),
{
    if bytes_lt(b, a) {
        lemma_bytes_lt_transitive(a, b, a);
        lemma_bytes_lt_irreflexive(a);
    }
}

/// Case folding is idempotent.
pub proof fn lemma_lower_chars_idempotent(s: Seq<char>)
    ensures
        lower_chars(lower_chars(s)) == lower_chars(s),
{
    assert(lower_chars(lower_chars(s)) =~= lower_chars(s));
}

/// The UTF-8 encoding is injective.
pub proof fn lemma_utf8_injective(a: Seq<char>, b: Seq<char>)
    requires
        encode_utf8(a) == encode_utf8(b),
    ensures
        a == b,
{
    assert(decode_utf8(encode_utf8(a)) == a);
    assert(decode_utf8(encode_utf8(b)) == b);
}

/// `str::to_ascii_lowercase`: maps 'A'..='Z' to 'a'..='z' and leaves every
/// other character unchanged.
#[verifier::external_body]
pub(crate) fn ascii_lowercase(s: &str) -> (r: String)
    ensures
        r@ == lower_chars(s@),
{
    s.to_ascii_lowercase()
}

/// `str::eq_ignore_ascii_case`: documented as equal to comparing the
/// `to_ascii_lowercase` forms of the two strings.
#[verifier::external_body]
pub(crate) fn eq_ignore_ascii_case(a: &str, b: &str) -> (r: bool)
    ensures
        r == same_ignoring_case(a@, b@),
{
    a.eq_ignore_ascii_case(b)
}

/// Byte-wise equality of two slices.
pub fn bytes_equal(a: &[u8], b: &[u8]) -> (r: bool)
    ensures
        r == (a@ == b@),
{
    if a.len() != b.len() {
        return false;
    }
    let mut i: usize = 0;
    while i < a.len()
        invariant
            a@.len() == b@.len(),
            0 <= i <= a@.len(),
            forall|k: int| 0 <= k < i ==> a@[k] == b@[k],
        decreases a@.len() - i,
    {
        if a[i] != b[i] {
            return false;
        }
        i += 1;
    }
    assert(a@ =~= b@);
    true
}

/// Exact string equality.
pub fn str_equal(a: &str, b: &str) -> (r: bool)
    ensures
        r == (a@ == b@),
{
    let r = bytes_equal(a.as_bytes(), b.as_bytes());
    proof {
        if r {
            lemma_utf8_injective(a@, b@);
        }
    }
    r
}

/// Lexicographic byte comparison (`<` on `str`).
pub fn bytes_less(a: &[u8], b: &[u8]) -> (r: bool)
    ensures
        r == bytes_lt(a@, b@),
{
    let mut i: usize = 0;
    assert(a@.skip(0) =~= a@);
    assert(b@.skip(0) =~= b@);
    while i < a.len() && i < b.len()
        invariant
            0 <= i <= a@.len(),
            i <= b@.len(),
            bytes_lt(a@, b@) == bytes_lt(a@.skip(i as int), b@.skip(i as int)),
        decreases a@.len() - i,
    {
        if a[i] != b[i] {
            return a[i] < b[i];
        }
        assert(a@.skip(i as int).drop_first() =~= a@.skip(i + 1));
        assert(b@.skip(i as int).drop_first() =~= b@.skip(i + 1));
        i += 1;
    }
    i < b.len()
}

/// Inserts `name` into `out`, which stays strictly ordered by folded key,
/// unless `out` already holds an entry with the same folded key.
pub fn insert_by_folded_key(out: &mut Vec<String>, name: &str)
    requires
        strictly_sorted_by_key(string_views(old(out)@)),
    ensures
        strictly_sorted_by_key(string_views(final(out)@)),
        (exists|i: int| 0 <= i < old(out)@.len() && fold_key(#[trigger] old(out)@[i]@) == fold_key(name@))
            ==> final(out)@ == old(out)@,
        (forall|i: int| 0 <= i < old(out)@.len() ==> fold_key(#[trigger] old(out)@[i]@) != fold_key(name@))
            ==> exists|p: int| 0 <= p <= old(out)@.len() && string_views(final(out)@) == string_views(old(out)@).insert(p, name@),
{
    let ghost v0 = string_views(out@);
    let key_owned = ascii_lowercase(name);
    let key = key_owned.as_str().as_bytes();
    proof { reveal(fold_key); }
    let mut p: usize = 0;
    while p < out.len()
        invariant
            0 <= p <= out@.len(),
            out@ == old(out)@,
            v0 == string_views(out@),
            key@ == fold_key(name@),
            strictly_sorted_by_key(v0),
            forall|k: int| 0 <= k < p ==> bytes_lt(#[trigger] fold_key(v0[k]), fold_key(name@)),
        ensures
            0 <= p <= out@.len(),
            out@ == old(out)@,
            forall|k: int| 0 <= k < p ==> bytes_lt(#[trigger] fold_key(v0[k]), fold_key(name@)),
            p < out@.len() ==> !bytes_lt(fold_key(v0[p as int]), fold_key(name@)),
        decreases out@.len() - p,
    {
        let other_owned = ascii_lowercase(out[p].as_str());
        let other = other_owned.as_str().as_bytes();
        proof { reveal(fold_key); }
        assert(other@ == fold_key(v0[p as int]));
        if !bytes_less(other, key) {
            break;
        }
        p += 1;
    }
    if p < out.len() {
        let other_owned = ascii_lowercase(out[p].as_str());
        let other = other_owned.as_str().as_bytes();
        proof { reveal(fold_key); }
        assert(other@ == fold_key(v0[p as int]));
        if bytes_equal(other, key) {
            return;
        }
        proof {
            lemma_bytes_lt_total(other@, key@);
        }
    }
    assert(p < v0.len() ==> bytes_lt(fold_key(name@), fold_key(v0[p as int])));
    proof {
        assert forall|i: int| 0 <= i < v0.len() implies fold_key(#[trigger] old(out)@[i]@) != fold_key(name@) by {
            assert(v0[i] == old(out)@[i]@);
            if i < p {
                lemma_bytes_lt_irreflexive(fold_key(name@));
            } else if i > p {
                lemma_bytes_lt_transitive(fold_key(name@), fold_key(v0[p as int]), fold_key(v0[i]));
                lemma_bytes_lt_irreflexive(fold_key(name@));
            } else {
                lemma_bytes_lt_irreflexive(fold_key(name@));
            }
        }
    }
    let owned = name.to_owned();
    out.insert(p, owned);
    proof {
        let v1 = string_views(out@);
        assert(v1 =~= v0.insert(p as int, name@));
        assert forall|i: int, j: int| 0 <= i < j < v1.len() implies bytes_lt(#[trigger] fold_key(v1[i]), #[trigger] fold_key(v1[j])) by {
            if j < p {
            } else if i < p && j == p {
            } else if i < p && j > p {
                assert(v1[j] == v0[j - 1]);
                if (p as int) < v0.len() {
                    lemma_bytes_lt_transitive(fold_key(v1[i]), fold_key(name@), fold_key(v0[p as int]));
                    if j - 1 > p {
                        lemma_bytes_lt_transitive(fold_key(v1[i]), fold_key(v0[p as int]), fold_key(v0[j - 1]));
                    }
                }
            } else if i == p {
                assert(v1[j] == v0[j - 1]);
                if j - 1 > p {
                    lemma_bytes_lt_transitive(fold_key(name@), fold_key(v0[p as int]), fold_key(v0[j - 1]));
                }
            } else {
                assert(v1[i] == v0[i - 1]);
                assert(v1[j] == v0[j - 1]);
            }
        }
    }
}

proof fn lemma_first_with_key_push(input: Seq<Seq<char>>, x: Seq<char>)
    ensures
        forall|j: int| #[trigger] first_with_key(input, j) ==> first_with_key(input.push(x), j),
        forall|s: Seq<char>| #[trigger] drawn_first(input, s) ==> drawn_first(input.push(x), s),
{
    let input1 = input.push(x);
    assert forall|j: int| #[trigger] first_with_key(input, j) implies first_with_key(input1, j) by {
        assert forall|k: int| 0 <= k < j implies fold_key(#[trigger] input1[k]) != fold_key(input1[j]) by {
            assert(input1[k] == input[k]);
        }
    }
    assert forall|s: Seq<char>| #[trigger] drawn_first(input, s) implies drawn_first(input1, s) by {
        let j = choose|j: int| #[trigger] first_with_key(input, j) && input[j] == s;
        assert(first_with_key(input1, j) && input1[j] == s);
    }
}

/// Adding an element whose key the summary already lists leaves it unchanged.
proof fn lemma_key_summary_push_known(out0: Seq<Seq<char>>, input: Seq<Seq<char>>, x: Seq<char>)
    requires
        is_key_summary(out0, input),
        key_listed(out0, fold_key(x)),
    ensures
        is_key_summary(out0, input.push(x)),
{
    let input1 = input.push(x);
    lemma_first_with_key_push(input, x);
    assert forall|i: int| 0 <= i < out0.len() implies #[trigger] drawn_first(input1, out0[i]) by {
        assert(drawn_first(input, out0[i]));
    }
    assert forall|j: int| 0 <= j < input1.len() implies #[trigger] key_listed(out0, fold_key(input1[j])) by {
        if j < input.len() {
            assert(input1[j] == input[j]);
            assert(key_listed(out0, fold_key(input[j])));
        } else {
            assert(input1[j] == x);
        }
    }
}

/// Adding an element with a new key inserts it into the summary.
proof fn lemma_key_summary_push_new(out0: Seq<Seq<char>>, out1: Seq<Seq<char>>, input: Seq<Seq<char>>, x: Seq<char>, p: int)
    requires
        is_key_summary(out0, input),
        strictly_sorted_by_key(out1),
        !key_listed(out0, fold_key(x)),
        0 <= p <= out0.len(),
        out1 == out0.insert(p, x),
    ensures
        is_key_summary(out1, input.push(x)),
{
    let input1 = input.push(x);
    lemma_first_with_key_push(input, x);
    assert(first_with_key(input1, input.len() as int)) by {
        assert forall|k: int| 0 <= k < input.len() implies fold_key(#[trigger] input1[k]) != fold_key(input1[input.len() as int]) by {
            assert(input1[k] == input[k]);
            assert(key_listed(out0, fold_key(input[k])));
        }
    }
    assert forall|i: int| 0 <= i < out1.len() implies #[trigger] drawn_first(input1, out1[i]) by {
        if i < p {
            assert(out1[i] == out0[i]);
            assert(drawn_first(input, out0[i]));
        } else if i == p {
            assert(input1[input.len() as int] == out1[i]);
        } else {
            assert(out1[i] == out0[i - 1]);
            assert(drawn_first(input, out0[i - 1]));
        }
    }
    assert forall|j: int| 0 <= j < input1.len() implies #[trigger] key_listed(out1, fold_key(input1[j])) by {
        if j < input.len() {
            assert(input1[j] == input[j]);
            assert(key_listed(out0, fold_key(input[j])));
            let i = choose|i: int| 0 <= i < out0.len() && fold_key(#[trigger] out0[i]) == fold_key(input[j]);
            if i < p {
                assert(out1[i] == out0[i]);
            } else {
                assert(out1[i + 1] == out0[i]);
            }
        } else {
            assert(input1[j] == x);
            assert(out1[p] == x);
        }
    }
}

/// The empty list summarizes the empty input.
pub proof fn lemma_key_summary_empty()
    ensures
        is_key_summary(Seq::<Seq<char>>::empty(), Seq::<Seq<char>>::empty()),
{
}

/// Adds `name` to a key summary of `input`, giving a key summary of
/// `input` followed by `name`.
pub fn add_to_key_summary(out: &mut Vec<String>, name: &str, Ghost(input): Ghost<Seq<Seq<char>>>)
    requires
        is_key_summary(string_views(old(out)@), input),
    ensures
        is_key_summary(string_views(final(out)@), input.push(name@)),
{
    let ghost v0 = string_views(out@);
    insert_by_folded_key(out, name);
    proof {
        let v1 = string_views(out@);
        if key_listed(v0, fold_key(name@)) {
            let i = choose|i: int| 0 <= i < v0.len() && fold_key(#[trigger] v0[i]) == fold_key(name@);
            assert(fold_key(old(out)@[i]@) == fold_key(name@));
            assert(v1 == v0);
            lemma_key_summary_push_known(v0, input, name@);
        } else {
            assert forall|i: int| 0 <= i < old(out)@.len() implies fold_key(#[trigger] old(out)@[i]@) != fold_key(name@) by {
                assert(v0[i] == old(out)@[i]@);
            }
            let p = choose|p: int| 0 <= p <= old(out)@.len() && string_views(out@) == string_views(old(out)@).insert(p, name@);
            lemma_key_summary_push_new(v0, v1, input, name@, p);
        }
    }
}

/// Strictly increasing numbers.
pub open spec fn strictly_increasing(s: Seq<usize>) -> bool {
    forall|i: int, j: int| 0 <= i < j < s.len() ==> #[trigger] s[i] < #[trigger] s[j]
}

/// Inserts `x` into a strictly increasing list unless it is already there.
pub fn insert_sorted_unique(v: &mut Vec<usize>, x: usize)
    requires
        strictly_increasing(old(v)@),
    ensures
        strictly_increasing(final(v)@),
        forall|n: usize| final(v)@.contains(n) <==> (old(v)@.contains(n) || n == x),
{
    let mut p: usize = 0;
    while p < v.len() && v[p] < x
        invariant
            0 <= p <= v@.len(),
            v@ == old(v)@,
            forall|k: int| 0 <= k < p ==> #[trigger] v@[k] < x,
        decreases v@.len() - p,
    {
        p += 1;
    }
    if p < v.len() && v[p] == x {
        assert(v@[p as int] == x);
        assert(v@.contains(x));
        return;
    }
    let ghost v0 = v@;
    v.insert(p, x);
    proof {
        assert(v0 == old(v)@);
        assert(v@ == v0.insert(p as int, x));
        assert forall|n: usize| #[trigger] v@.contains(n) <==> (v0.contains(n) || n == x) by {
            if v0.contains(n) {
                let k = choose|k: int| 0 <= k < v0.len() && v0[k] == n;
                if k < p {
                    assert(v@[k] == n);
                } else {
                    assert(v@[k + 1] == n);
                }
            }
            if n == x {
                assert(v@[p as int] == x);
            }
            if v@.contains(n) {
                let k = choose|k: int| 0 <= k < v@.len() && v@[k] == n;
                if k < p {
                    assert(v0[k] == n);
                } else if k > p {
                    assert(v0[k - 1] == n);
                }
            }
        }
    }
}


/// ASCII case folding of a character's UTF-8 bytes is the UTF-8 encoding of
/// its folded form.
proof fn lemma_lower_scalar(c: char)
    ensures
        lower_bytes(encode_scalar(c as u32)) == encode_scalar(lower_char(c) as u32),
{
    let v = c as u32;
    assert(is_scalar(v));
    if has_width_1_encoding(v) {
        let b = leading_byte_width_1(v);
        assert(b == v) by (bit_vector)
            requires
                v <= 0x7F,
                b == (v & 0x7F) as u8,
        ;
        if 65 <= v && v <= 90 {
            let w: u32 = (v + 32) as u32;
            assert((w as char) as u32 == w);
            assert(lower_char(c) as u32 == w);
            let b2 = leading_byte_width_1(w);
            assert(b2 == w) by (bit_vector)
                requires
                    w <= 0x7F,
                    b2 == (w & 0x7F) as u8,
            ;
        } else {
            assert(lower_char(c) == c);
        }
        assert(lower_bytes(encode_scalar(v)) =~= encode_scalar(lower_char(c) as u32));
    } else {
        assert(lower_char(c) == c);
        let e = encode_scalar(v);
        if has_width_2_encoding(v) {
            let b1 = leading_byte_width_2(v);
            let b2 = last_continuation_byte(v);
            assert(b1 >= 0x80) by (bit_vector)
                requires
                    b1 == 0xC0 | ((v >> 6) & 0x1F) as u8,
            ;
            assert(b2 >= 0x80) by (bit_vector)
                requires
                    b2 == 0x80 | (v & 0x3F) as u8,
            ;
        } else if has_width_3_encoding(v) {
            let b1 = leading_byte_width_3(v);
            let b2 = second_last_continuation_byte(v);
            let b3 = last_continuation_byte(v);
            assert(b1 >= 0x80) by (bit_vector)
                requires
                    b1 == 0xE0 | ((v >> 12) & 0x0F) as u8,
            ;
            assert(b2 >= 0x80) by (bit_vector)
                requires
                    b2 == 0x80 | ((v >> 6) & 0x3F) as u8,
            ;
            assert(b3 >= 0x80) by (bit_vector)
                requires
                    b3 == 0x80 | (v & 0x3F) as u8,
            ;
        } else {
            let b1 = leading_byte_width_4(v);
            let b2 = third_last_continuation_byte(v);
            let b3 = second_last_continuation_byte(v);
            let b4 = last_continuation_byte(v);
            assert(b1 >= 0x80) by (bit_vector)
                requires
                    b1 == 0xF0 | ((v >> 18) & 0x7) as u8,
            ;
            assert(b2 >= 0x80) by (bit_vector)
                requires
                    b2 == 0x80 | ((v >> 12) & 0x3F) as u8,
            ;
            assert(b3 >= 0x80) by (bit_vector)
                requires
                    b3 == 0x80 | ((v >> 6) & 0x3F) as u8,
            ;
            assert(b4 >= 0x80) by (bit_vector)
                requires
                    b4 == 0x80 | (v & 0x3F) as u8,
            ;
        }
        assert(lower_bytes(e) =~= e);
    }
}

/// Folding the bytes of a UTF-8 encoding is encoding the folded characters.
pub proof fn lemma_lower_bytes_utf8(s: Seq<char>)
    ensures
        lower_bytes(utf8(s)) == utf8(lower_chars(s)),
    decreases s.len(),
{
    if s.len() > 0 {
        lemma_lower_bytes_utf8(s.drop_first());
        lemma_lower_scalar(s[0]);
        let e0 = encode_scalar(s[0] as u32);
        let rest = encode_utf8(s.drop_first());
        assert(lower_bytes(e0 + rest) =~= lower_bytes(e0) + lower_bytes(rest));
        assert(lower_chars(s).drop_first() =~= lower_chars(s.drop_first()));
        assert(lower_chars(s)[0] == lower_char(s[0]));
    }
}


/// Strictly increasing in byte order (so no element occurs twice).
pub open spec fn strictly_sorted_bytes(s: Seq<Seq<char>>) -> bool {
    forall|i: int, j: int| 0 <= i < j < s.len() ==> bytes_lt(#[trigger] utf8(s[i]), #[trigger] utf8(s[j]))
}

/// `out` holds the distinct elements of `input`, in byte order.
pub open spec fn is_sorted_set(out: Seq<Seq<char>>, input: Seq<Seq<char>>) -> bool {
    &&& strictly_sorted_bytes(out)
    &&& forall|x: Seq<char>| #[trigger] out.contains(x) <==> input.contains(x)
}

/// Inserts `name` into `out`, which stays strictly ordered by bytes, unless
/// it is already there.
fn insert_sorted_str(out: &mut Vec<String>, name: &str)
    requires
        strictly_sorted_bytes(string_views(old(out)@)),
    ensures
        strictly_sorted_bytes(string_views(final(out)@)),
        forall|x: Seq<char>| #[trigger] string_views(final(out)@).contains(x) <==> (string_views(old(out)@).contains(x) || x == name@),
{
    let ghost v0 = string_views(out@);
    let key = name.as_bytes();
    let mut p: usize = 0;
    while p < out.len()
        invariant
            0 <= p <= out@.len(),
            out@ == old(out)@,
            v0 == string_views(out@),
            key@ == utf8(name@),
            strictly_sorted_bytes(v0),
            forall|k: int| 0 <= k < p ==> bytes_lt(#[trigger] utf8(v0[k]), utf8(name@)),
        ensures
            0 <= p <= out@.len(),
            out@ == old(out)@,
            forall|k: int| 0 <= k < p ==> bytes_lt(#[trigger] utf8(v0[k]), utf8(name@)),
            p < out@.len() ==> !bytes_lt(utf8(v0[p as int]), utf8(name@)),
        decreases out@.len() - p,
    {
        let other = out[p].as_str().as_bytes();
        assert(other@ == utf8(v0[p as int]));
        if !bytes_less(other, key) {
            break;
        }
        p += 1;
    }
    if p < out.len() {
        let other = out[p].as_str().as_bytes();
        assert(other@ == utf8(v0[p as int]));
        if bytes_equal(other, key) {
            proof {
                lemma_utf8_injective(v0[p as int], name@);
                assert(v0[p as int] == name@);
            }
            return;
        }
        proof {
            lemma_bytes_lt_total(other@, key@);
        }
    }
    assert(p < v0.len() ==> bytes_lt(utf8(name@), utf8(v0[p as int])));
    let owned = name.to_owned();
    out.insert(p, owned);
    proof {
        let v1 = string_views(out@);
        assert(v1 =~= v0.insert(p as int, name@));
        assert forall|i: int, j: int| 0 <= i < j < v1.len() implies bytes_lt(#[trigger] utf8(v1[i]), #[trigger] utf8(v1[j])) by {
            if j < p {
            } else if i < p && j == p {
            } else if i < p && j > p {
                assert(v1[j] == v0[j - 1]);
                if (p as int) < v0.len() {
                    lemma_bytes_lt_transitive(utf8(v1[i]), utf8(name@), utf8(v0[p as int]));
                    if j - 1 > p {
                        lemma_bytes_lt_transitive(utf8(v1[i]), utf8(v0[p as int]), utf8(v0[j - 1]));
                    }
                }
            } else if i == p {
                assert(v1[j] == v0[j - 1]);
                if j - 1 > p {
                    lemma_bytes_lt_transitive(utf8(name@), utf8(v0[p as int]), utf8(v0[j - 1]));
                }
            } else {
                assert(v1[i] == v0[i - 1]);
                assert(v1[j] == v0[j - 1]);
            }
        }
        assert forall|x: Seq<char>| #[trigger] v1.contains(x) <==> (v0.contains(x) || x == name@) by {
            if v0.contains(x) {
                let k = choose|k: int| 0 <= k < v0.len() && v0[k] == x;
                if k < p {
                    assert(v1[k] == x);
                } else {
                    assert(v1[k + 1] == x);
                }
            }
            if x == name@ {
                assert(v1[p as int] == x);
            }
            if v1.contains(x) {
                let k = choose|k: int| 0 <= k < v1.len() && v1[k] == x;
                if k < p {
                    assert(v0[k] == x);
                } else if k > p {
                    assert(v0[k - 1] == x);
                }
            }
        }
    }
}

/// Adds `name` to a sorted set of the elements of `input`, giving a sorted
/// set of `input` followed by `name`.
pub fn add_to_sorted_set(out: &mut Vec<String>, name: &str, Ghost(input): Ghost<Seq<Seq<char>>>)
    requires
        is_sorted_set(string_views(old(out)@), input),
    ensures
        is_sorted_set(string_views(final(out)@), input.push(name@)),
{
    insert_sorted_str(out, name);
    proof {
        assert forall|x: Seq<char>| #[trigger] string_views(out@).contains(x) <==> input.push(name@).contains(x) by {
            if input.contains(x) {
                let k = choose|k: int| 0 <= k < input.len() && input[k] == x;
                assert(input.push(name@)[k] == x);
            }
            if x == name@ {
                assert(input.push(name@)[input.len() as int] == x);
            }
            if input.push(name@).contains(x) {
                let k = choose|k: int| 0 <= k < input.push(name@).len() && input.push(name@)[k] == x;
                if k < input.len() {
                    assert(input[k] == x);
                }
            }
        }
    }
}


/// The Unicode lowercase form of a string (`str::to_lowercase`).
pub uninterp spec fn unicode_lowercase(s: Seq<char>) -> Seq<char>;

/// `str::to_lowercase`: the Unicode lowercase form of `s`. Its result is
/// named, not described: the Unicode case mapping tables are not restated.
#[verifier::external_body]
pub(crate) fn to_lowercase(s: &str) -> (r: String)
    ensures
        r@ == unicode_lowercase(s@),
{
    s.to_lowercase()
}


// ── Uniqueness of ordered summaries ─────────────────────────────────────────

/// Two sequences, each strictly increasing under the strict order `lt`,
/// holding the same elements are equal.
pub proof fn lemma_sorted_same_elements<K>(a: Seq<K>, b: Seq<K>, lt: spec_fn(K, K) -> bool)
    requires
        forall|x: K| !(#[trigger] lt(x, x)),
        forall|x: K, y: K, z: K| #[trigger] lt(x, y) && #[trigger] lt(y, z) ==> lt(x, z),
        forall|i: int, j: int| 0 <= i < j < a.len() ==> #[trigger] lt(a[i], a[j]),
        forall|i: int, j: int| 0 <= i < j < b.len() ==> #[trigger] lt(b[i], b[j]),
        forall|x: K| #[trigger] a.contains(x) <==> b.contains(x),
    ensures
        a == b,
    decreases a.len(),
{
    if a.len() == 0 {
        if b.len() > 0 {
            assert(b.contains(b[0]));
            assert(a.contains(b[0]));
        }
        assert(a =~= b);
    } else if b.len() == 0 {
        assert(a.contains(a[0]));
    } else {
        assert(a.contains(a[0]));
        assert(b.contains(b[0]));
        assert(b.contains(a[0]));
        assert(a.contains(b[0]));
        let k = choose|k: int| 0 <= k < b.len() && b[k] == a[0];
        let m = choose|m: int| 0 <= m < a.len() && a[m] == b[0];
        if k > 0 {
            assert(lt(b[0], b[k]));
            if m > 0 {
                assert(lt(a[0], a[m]));
                assert(lt(a[0], a[0]));
            } else {
                assert(lt(b[0], b[0]));
            }
        }
        assert(a[0] == b[0]);
        let a1 = a.drop_first();
        let b1 = b.drop_first();
        assert(a1.len() == a.len() - 1);
        assert(b1.len() == b.len() - 1);
        assert(forall|i: int| 0 <= i < a1.len() ==> #[trigger] a1[i] == a[i + 1]);
        assert(forall|i: int| 0 <= i < b1.len() ==> #[trigger] b1[i] == b[i + 1]);
        assert forall|x: K| #[trigger] a1.contains(x) <==> b1.contains(x) by {
            if a1.contains(x) {
                let i = choose|i: int| 0 <= i < a1.len() && a1[i] == x;
                assert(a[i + 1] == x);
                assert(lt(a[0], a[i + 1]));
                assert(a.contains(x));
                assert(b.contains(x));
                let j = choose|j: int| 0 <= j < b.len() && b[j] == x;
                if j == 0 {
                    assert(lt(x, x));
                }
                assert(b1[j - 1] == x);
            }
            if b1.contains(x) {
                let i = choose|i: int| 0 <= i < b1.len() && b1[i] == x;
                assert(b[i + 1] == x);
                assert(lt(b[0], b[i + 1]));
                assert(b.contains(x));
                assert(a.contains(x));
                let j = choose|j: int| 0 <= j < a.len() && a[j] == x;
                if j == 0 {
                    assert(lt(x, x));
                }
                assert(a1[j - 1] == x);
            }
        }
        assert forall|i: int, j: int| 0 <= i < j < a1.len() implies #[trigger] lt(a1[i], a1[j]) by {
            assert(lt(a[i + 1], a[j + 1]));
        }
        assert forall|i: int, j: int| 0 <= i < j < b1.len() implies #[trigger] lt(b1[i], b1[j]) by {
            assert(lt(b[i + 1], b[j + 1]));
        }
        lemma_sorted_same_elements(a1, b1, lt);
        assert(a =~= seq![a[0]].add(a1));
        assert(b =~= seq![b[0]].add(b1));
    }
}

/// The folded keys of a list of identifiers.
pub open spec fn folded_keys(s: Seq<Seq<char>>) -> Seq<Seq<u8>> {
    s.map_values(|x: Seq<char>| fold_key(x))
}

/// The key summary of `input`.
pub open spec fn key_summary(input: Seq<Seq<char>>) -> Seq<Seq<char>> {
    choose|out: Seq<Seq<char>>| is_key_summary(out, input)
}

/// A key summary's keys are exactly the keys of its input.
proof fn lemma_key_summary_keys(out: Seq<Seq<char>>, input: Seq<Seq<char>>, x: Seq<u8>)
    requires
        is_key_summary(out, input),
    ensures
        folded_keys(out).contains(x) <==> exists|j: int| 0 <= j < input.len() && fold_key(#[trigger] input[j]) == x,
{
    if folded_keys(out).contains(x) {
        let i = choose|i: int| 0 <= i < folded_keys(out).len() && folded_keys(out)[i] == x;
        assert(drawn_first(input, out[i]));
        let j = choose|j: int| #[trigger] first_with_key(input, j) && input[j] == out[i];
        assert(fold_key(input[j]) == x);
    }
    if exists|j: int| 0 <= j < input.len() && fold_key(#[trigger] input[j]) == x {
        let j = choose|j: int| 0 <= j < input.len() && fold_key(#[trigger] input[j]) == x;
        assert(key_listed(out, fold_key(input[j])));
        let i = choose|i: int| 0 <= i < out.len() && fold_key(#[trigger] out[i]) == fold_key(input[j]);
        assert(folded_keys(out)[i] == x);
    }
}

/// A list that summarizes `input` is its key summary: there is only one.
pub proof fn lemma_key_summary_unique(out: Seq<Seq<char>>, input: Seq<Seq<char>>)
    requires
        is_key_summary(out, input),
    ensures
        out == key_summary(input),
{
    let other = key_summary(input);
    assert(is_key_summary(other, input));
    let ka = folded_keys(out);
    let kb = folded_keys(other);
    let lt = |x: Seq<u8>, y: Seq<u8>| bytes_lt(x, y);
    assert forall|x: Seq<u8>| !(#[trigger] lt(x, x)) by {
        lemma_bytes_lt_irreflexive(x);
    }
    assert forall|x: Seq<u8>, y: Seq<u8>, z: Seq<u8>| #[trigger] lt(x, y) && #[trigger] lt(y, z) implies lt(x, z) by {
        lemma_bytes_lt_transitive(x, y, z);
    }
    assert forall|i: int, j: int| 0 <= i < j < ka.len() implies #[trigger] lt(ka[i], ka[j]) by {
        assert(bytes_lt(fold_key(out[i]), fold_key(out[j])));
    }
    assert forall|i: int, j: int| 0 <= i < j < kb.len() implies #[trigger] lt(kb[i], kb[j]) by {
        assert(bytes_lt(fold_key(other[i]), fold_key(other[j])));
    }
    assert forall|x: Seq<u8>| #[trigger] ka.contains(x) <==> kb.contains(x) by {
        lemma_key_summary_keys(out, input, x);
        lemma_key_summary_keys(other, input, x);
    }
    lemma_sorted_same_elements(ka, kb, lt);
    assert forall|i: int| 0 <= i < out.len() implies out[i] == other[i] by {
        assert(ka[i] == kb[i]);
        assert(drawn_first(input, out[i]));
        assert(drawn_first(input, other[i]));
        let j1 = choose|j: int| #[trigger] first_with_key(input, j) && input[j] == out[i];
        let j2 = choose|j: int| #[trigger] first_with_key(input, j) && input[j] == other[i];
        if j1 < j2 {
            assert(fold_key(input[j1]) != fold_key(input[j2]));
        } else if j2 < j1 {
            assert(fold_key(input[j2]) != fold_key(input[j1]));
        }
    }
    assert(out =~= other);
}


/// The distinct names of `input`, in byte order.
pub open spec fn sorted_names(input: Seq<Seq<char>>) -> Seq<Seq<char>> {
    choose|c: Seq<Seq<char>>| is_sorted_set(c, input)
}

/// Inserting a name that is not yet there into a strictly ordered list, at
/// its place, keeps the list strictly ordered.
proof fn lemma_insert_in_order(c: Seq<Seq<char>>, x: Seq<char>) -> (r: Seq<Seq<char>>)
    requires
        strictly_sorted_bytes(c),
        !c.contains(x),
    ensures
        strictly_sorted_bytes(r),
        forall|y: Seq<char>| #[trigger] r.contains(y) <==> (c.contains(y) || y == x),
    decreases c.len(),
{
    if c.len() == 0 {
        let r = seq![x];
        assert(r[0] == x);
        r
    } else {
        lemma_bytes_lt_total(utf8(x), utf8(c[0]));
        if utf8(x) == utf8(c[0]) {
            lemma_utf8_injective(x, c[0]);
            assert(c.contains(c[0]));
        }
        if bytes_lt(utf8(x), utf8(c[0])) {
            let r = seq![x] + c;
            assert forall|i: int, j: int| 0 <= i < j < r.len() implies bytes_lt(#[trigger] utf8(r[i]), #[trigger] utf8(r[j])) by {
                if i == 0 {
                    if j > 1 {
                        assert(r[j] == c[j - 1]);
                        assert(bytes_lt(utf8(c[0]), utf8(c[j - 1])));
                        lemma_bytes_lt_transitive(utf8(x), utf8(c[0]), utf8(c[j - 1]));
                    }
                } else {
                    assert(r[i] == c[i - 1] && r[j] == c[j - 1]);
                }
            }
            assert forall|y: Seq<char>| #[trigger] r.contains(y) <==> (c.contains(y) || y == x) by {
                if r.contains(y) {
                    let k = choose|k: int| 0 <= k < r.len() && r[k] == y;
                    if k > 0 {
                        assert(c[k - 1] == y);
                    }
                }
                if c.contains(y) {
                    let k = choose|k: int| 0 <= k < c.len() && c[k] == y;
                    assert(r[k + 1] == y);
                }
                if y == x {
                    assert(r[0] == y);
                }
            }
            r
        } else {
            let rest = c.drop_first();
            assert forall|i: int, j: int| 0 <= i < j < rest.len() implies bytes_lt(#[trigger] utf8(rest[i]), #[trigger] utf8(rest[j])) by {
                assert(rest[i] == c[i + 1] && rest[j] == c[j + 1]);
            }
            if rest.contains(x) {
                let k = choose|k: int| 0 <= k < rest.len() && rest[k] == x;
                assert(c[k + 1] == x);
            }
            let t = lemma_insert_in_order(rest, x);
            let r = seq![c[0]] + t;
            assert forall|k: int| 0 <= k < t.len() implies bytes_lt(utf8(c[0]), #[trigger] utf8(t[k])) by {
                assert(t.contains(t[k]));
                if t[k] == x {
                } else {
                    let m = choose|m: int| 0 <= m < rest.len() && rest[m] == t[k];
                    assert(rest[m] == c[m + 1]);
                }
            }
            assert forall|i: int, j: int| 0 <= i < j < r.len() implies bytes_lt(#[trigger] utf8(r[i]), #[trigger] utf8(r[j])) by {
                if i == 0 {
                    assert(r[j] == t[j - 1]);
                } else {
                    assert(r[i] == t[i - 1] && r[j] == t[j - 1]);
                }
            }
            assert forall|y: Seq<char>| #[trigger] r.contains(y) <==> (c.contains(y) || y == x) by {
                if r.contains(y) {
                    let k = choose|k: int| 0 <= k < r.len() && r[k] == y;
                    if k > 0 {
                        assert(t[k - 1] == y);
                        assert(t.contains(y));
                        if rest.contains(y) {
                            let m = choose|m: int| 0 <= m < rest.len() && rest[m] == y;
                            assert(c[m + 1] == y);
                        }
                    } else {
                        assert(c[0] == y);
                    }
                }
                if c.contains(y) {
                    let k = choose|k: int| 0 <= k < c.len() && c[k] == y;
                    if k == 0 {
                        assert(r[0] == y);
                    } else {
                        assert(rest[k - 1] == y);
                        assert(t.contains(y));
                        let m = choose|m: int| 0 <= m < t.len() && t[m] == y;
                        assert(r[m + 1] == y);
                    }
                }
                if y == x {
                    assert(t.contains(x));
                    let m = choose|m: int| 0 <= m < t.len() && t[m] == x;
                    assert(r[m + 1] == y);
                }
            }
            r
        }
    }
}

/// Every list of names has a sorted set: `sorted_names` of it is one.
pub proof fn lemma_sorted_names(input: Seq<Seq<char>>)
    ensures
        is_sorted_set(sorted_names(input), input),
    decreases input.len(),
{
    if input.len() == 0 {
        let c: Seq<Seq<char>> = Seq::empty();
        assert(is_sorted_set(c, input));
    } else {
        let prev = input.drop_last();
        let x = input.last();
        lemma_sorted_names(prev);
        let c0 = sorted_names(prev);
        assert forall|y: Seq<char>| #[trigger] input.contains(y) <==> (prev.contains(y) || y == x) by {
            if input.contains(y) {
                let k = choose|k: int| 0 <= k < input.len() && input[k] == y;
                if k < prev.len() {
                    assert(prev[k] == y);
                }
            }
            if prev.contains(y) {
                let k = choose|k: int| 0 <= k < prev.len() && prev[k] == y;
                assert(input[k] == y);
            }
            if y == x {
                assert(input[input.len() - 1] == y);
            }
        }
        if c0.contains(x) {
            assert(is_sorted_set(c0, input));
        } else {
            let c1 = lemma_insert_in_order(c0, x);
            assert(is_sorted_set(c1, input));
        }
    }
}

/// Two sorted sets of the same input are equal.
pub proof fn lemma_sorted_sets_equal(a: Seq<Seq<char>>, b: Seq<Seq<char>>, input: Seq<Seq<char>>)
    requires
        is_sorted_set(a, input),
        is_sorted_set(b, input),
    ensures
        a == b,
{
    let lt = |x: Seq<char>, y: Seq<char>| bytes_lt(utf8(x), utf8(y));
    assert forall|x: Seq<char>| !(#[trigger] lt(x, x)) by {
        lemma_bytes_lt_irreflexive(utf8(x));
    }
    assert forall|x: Seq<char>, y: Seq<char>, z: Seq<char>| #[trigger] lt(x, y) && #[trigger] lt(y, z) implies lt(x, z) by {
        lemma_bytes_lt_transitive(utf8(x), utf8(y), utf8(z));
    }
    assert forall|i: int, j: int| 0 <= i < j < a.len() implies #[trigger] lt(a[i], a[j]) by {
        assert(bytes_lt(utf8(a[i]), utf8(a[j])));
    }
    assert forall|i: int, j: int| 0 <= i < j < b.len() implies #[trigger] lt(b[i], b[j]) by {
        assert(bytes_lt(utf8(b[i]), utf8(b[j])));
    }
    assert forall|x: Seq<char>| #[trigger] a.contains(x) <==> b.contains(x) by {
        assert(a.contains(x) <==> input.contains(x));
        assert(b.contains(x) <==> input.contains(x));
    }
    lemma_sorted_same_elements(a, b, lt);
}

} // verus!
