//! Decisions completion makes on the token stream of a document: where the
//! statement around the cursor starts and ends, which qualifier precedes the
//! cursor, and how the expected tokens of two parser states combine.

use vstd::prelude::*;

use vstd::string::StringSliceAdditionalSpecFns;
use vstd::utf8::{
    is_char_boundary, is_char_boundary_iff_not_is_continuation_byte, is_char_boundary_start_end_of_seq, valid_utf8,
    valid_utf8_split, encode_utf8_valid_utf8,
};

use crate::text::utf8;

verus! {

/// A token of the document as the parser reported it: its byte range, its
/// grammar token type, and whether the dialect classes that type as an
/// identifier.
#[derive(Debug, Clone, Copy, PartialEq, Eq, Structural)]
pub struct StoredToken {
    /// Byte offset of the token in the source.
    pub offset: usize,
    /// Length of the token in bytes.
    pub length: usize,
    /// The grammar's token type.
    pub token_type: u32,
    /// The dialect's category for this token type is "identifier".
    pub identifier: bool,
}

/// Byte offset just past a token.
pub open spec fn token_end(t: StoredToken) -> int {
    t.offset + t.length
}

/// The tokens lie inside a source of `n` bytes, ordered by where they end.
pub open spec fn tokens_ordered(toks: Seq<StoredToken>, n: int) -> bool {
    &&& forall|i: int| 0 <= i < toks.len() ==> token_end(#[trigger] toks[i]) <= n
    &&& forall|i: int, j: int| 0 <= i <= j < toks.len() ==> token_end(#[trigger] toks[i]) <= token_end(#[trigger] toks[j])
}

/// `p` splits the tokens into those that end at or before `cursor` and those
/// that end after it.
pub open spec fn split_at_cursor(toks: Seq<StoredToken>, cursor: int, p: int) -> bool {
    &&& 0 <= p <= toks.len()
    &&& forall|i: int| 0 <= i < p ==> token_end(#[trigger] toks[i]) <= cursor
    &&& forall|i: int| p <= i < toks.len() ==> token_end(#[trigger] toks[i]) > cursor
}

/// Step back over the empty tokens that sit at the cursor.
pub open spec fn skip_empty_at(toks: Seq<StoredToken>, cursor: int, b: int) -> int
    decreases b,
{
    if 0 < b <= toks.len() && toks[b - 1].length == 0 && toks[b - 1].offset == cursor {
        skip_empty_at(toks, cursor, b - 1)
    } else {
        b
    }
}

/// An ASCII letter, digit or underscore.
pub open spec fn is_word_byte(c: u8) -> bool {
    (48 <= c <= 57) || (65 <= c <= 90) || (97 <= c <= 122) || c == 95
}

/// The boundary after stepping back over a word token that the cursor
/// touches, and whether that happened.
pub open spec fn backtrack_word(src: Seq<u8>, toks: Seq<StoredToken>, cursor: int, b: int) -> (int, bool) {
    if 0 < b <= toks.len() && token_end(toks[b - 1]) == cursor && 0 < cursor <= src.len() && is_word_byte(src[cursor - 1]) {
        (b - 1, true)
    } else {
        (b, false)
    }
}

/// The completion boundary for a split point of the tokens.
pub open spec fn boundary_for(src: Seq<u8>, toks: Seq<StoredToken>, cursor: int, p: int) -> (int, bool) {
    backtrack_word(src, toks, cursor, skip_empty_at(toks, cursor, p))
}

/// The index just past the last token of type `semi` before `b`, or 0.
pub open spec fn after_last_of(toks: Seq<StoredToken>, b: int, semi: u32) -> int
    decreases b,
{
    if b <= 0 || b > toks.len() {
        0
    } else if toks[b - 1].token_type == semi {
        b
    } else {
        after_last_of(toks, b - 1, semi)
    }
}

/// The tokens end in `identifier DOT`: the last token is the single byte
/// `.` and the one before it is an identifier.
pub open spec fn ends_with_qualifier(src: Seq<u8>, toks: Seq<StoredToken>) -> bool {
    &&& toks.len() >= 2
    &&& toks.last().length == 1
    &&& toks.last().offset < src.len()
    &&& src[toks.last().offset as int] == 46
    &&& toks[toks.len() - 2].identifier
}

/// The token lies inside the source, starting and ending on character
/// boundaries.
pub open spec fn token_on_boundaries(src: Seq<u8>, t: StoredToken) -> bool {
    &&& token_end(t) <= src.len()
    &&& is_char_boundary(src, t.offset as int)
    &&& is_char_boundary(src, token_end(t))
}

/// The bytes of the qualifier before a trailing `identifier DOT`.
pub open spec fn qualifier_bytes(src: Seq<u8>, toks: Seq<StoredToken>) -> Seq<u8> {
    let t = toks[toks.len() - 2];
    src.subrange(t.offset as int, token_end(t))
}

/// The tokens not yet seen, in order, each once.
pub open spec fn fresh_tokens(seen: Seq<u32>, extra: Seq<u32>) -> Seq<u32>
    decreases extra.len(),
{
    if extra.len() == 0 {
        Seq::empty()
    } else {
        let f = fresh_tokens(seen, extra.drop_last());
        if seen.contains(extra.last()) || f.contains(extra.last()) {
            f
        } else {
            f.push(extra.last())
        }
    }
}

/// When the last token before the cursor is not empty, ends exactly at the
/// cursor, and the byte before the cursor is an ASCII letter, digit or `_`,
/// completion steps back over that token (the word being typed) and says so;
/// when that byte is anything else, it does not.
pub proof fn law_word_at_cursor_is_backtracked(src: Seq<u8>, toks: Seq<StoredToken>, cursor: int, p: int)
    requires
        split_at_cursor(toks, cursor, p),
        p > 0,
        toks[p - 1].length > 0,
        token_end(toks[p - 1]) == cursor,
        0 < cursor <= src.len(),
    ensures
        ({
            let x = src[cursor - 1];
            (48 <= x <= 57 || 65 <= x <= 90 || 97 <= x <= 122 || x == 95) ==> boundary_for(src, toks, cursor, p) == (p - 1, true)
        }),
        ({
            let x = src[cursor - 1];
            !(48 <= x <= 57 || 65 <= x <= 90 || 97 <= x <= 122 || x == 95) ==> boundary_for(src, toks, cursor, p) == (p, false)
        }),
{
    assert(skip_empty_at(toks, cursor, p) == p);
}

/// Empty tokens at the cursor are stepped over, and completion never looks
/// back past the tokens that end after the cursor nor more than one token
/// before the empty ones.
pub proof fn law_boundary_within_split(src: Seq<u8>, toks: Seq<StoredToken>, cursor: int, p: int)
    requires
        split_at_cursor(toks, cursor, p),
    ensures
        boundary_for(src, toks, cursor, p).0 <= p,
        boundary_for(src, toks, cursor, p).1 ==> boundary_for(src, toks, cursor, p).0 + 1 == skip_empty_at(toks, cursor, p),
        !boundary_for(src, toks, cursor, p).1 ==> boundary_for(src, toks, cursor, p).0 == skip_empty_at(toks, cursor, p),
{
    lemma_skip_empty_at_bounds(toks, cursor, p);
}

proof fn lemma_skip_empty_at_bounds(toks: Seq<StoredToken>, cursor: int, b: int)
    requires
        0 <= b <= toks.len(),
    ensures
        0 <= skip_empty_at(toks, cursor, b) <= b,
    decreases b,
{
    if 0 < b && toks[b - 1].length == 0 && toks[b - 1].offset == cursor {
        lemma_skip_empty_at_bounds(toks, cursor, b - 1);
    }
}

/// The statement around a boundary starts just after the last `;` token
/// before the boundary (or at the first token): no `;` token lies between
/// that start and the boundary.
pub proof fn law_statement_starts_after_last_semicolon(toks: Seq<StoredToken>, b: int, semi: u32)
    requires
        0 <= b <= toks.len(),
    ensures
        0 <= after_last_of(toks, b, semi) <= b,
        after_last_of(toks, b, semi) == 0 || toks[after_last_of(toks, b, semi) - 1].token_type == semi,
        forall|i: int| after_last_of(toks, b, semi) <= i < b ==> (#[trigger] toks[i]).token_type != semi,
    decreases b,
{
    if b > 0 && toks[b - 1].token_type != semi {
        law_statement_starts_after_last_semicolon(toks, b - 1, semi);
    }
}

/// A qualifier is found exactly when the last token is the single byte `.`
/// and the token before it is an identifier; it is then that identifier's
/// text.
pub proof fn law_qualifier_is_identifier_before_dot(src: Seq<u8>, toks: Seq<StoredToken>)
    ensures
        ends_with_qualifier(src, toks) <==> (toks.len() >= 2 && toks[toks.len() - 1].length == 1 && toks[toks.len() - 1].offset
            < src.len() && src[toks[toks.len() - 1].offset as int] == 46 && toks[toks.len() - 2].identifier),
        toks.len() >= 2 ==> qualifier_bytes(src, toks) == src.subrange(
            toks[toks.len() - 2].offset as int,
            toks[toks.len() - 2].offset + toks[toks.len() - 2].length,
        ),
{
}

/// The number of leading tokens that end at or before `cursor` (the tokens
/// are ordered by where they end).
fn partition_at(tokens: &[StoredToken], cursor: usize, Ghost(n): Ghost<int>) -> (r: usize)
    requires
        tokens_ordered(tokens@, n),
        n <= usize::MAX,
    ensures
        split_at_cursor(tokens@, cursor as int, r as int),
{
    let mut lo: usize = 0;
    let mut hi: usize = tokens.len();
    while lo < hi
        invariant
            0 <= lo <= hi <= tokens@.len(),
            tokens_ordered(tokens@, n),
            n <= usize::MAX,
            forall|i: int| 0 <= i < lo ==> token_end(#[trigger] tokens@[i]) <= cursor,
            forall|i: int| hi <= i < tokens@.len() ==> token_end(#[trigger] tokens@[i]) > cursor,
        decreases hi - lo,
    {
        let mid = lo + (hi - lo) / 2;
        let t = tokens[mid];
        assert(token_end(tokens@[mid as int]) <= n);
        if t.offset + t.length <= cursor {
            proof {
                assert forall|i: int| 0 <= i < mid + 1 implies token_end(#[trigger] tokens@[i]) <= cursor by {
                    if i < mid {
                        assert(token_end(tokens@[i]) <= token_end(tokens@[mid as int]));
                    }
                }
            }
            lo = mid + 1;
        } else {
            proof {
                assert forall|i: int| mid <= i < tokens@.len() implies token_end(#[trigger] tokens@[i]) > cursor by {
                    if i > mid {
                        assert(token_end(tokens@[mid as int]) <= token_end(tokens@[i]));
                    }
                }
            }
            hi = mid;
        }
    }
    lo
}

/// Where completion at `cursor` looks back from: the number of tokens that
/// end at or before the cursor, less the empty tokens at the cursor, less
/// the word the cursor is touching (then `true`), so that a partly typed
/// word is completed rather than followed.
pub fn completion_boundary(source: &str, tokens: &[StoredToken], cursor_offset: usize) -> (r: (usize, bool))
    requires
        tokens_ordered(tokens@, utf8(source@).len() as int),
        cursor_offset <= utf8(source@).len(),
    ensures
        exists|p: int| split_at_cursor(tokens@, cursor_offset as int, p),
        forall|p: int|
            split_at_cursor(tokens@, cursor_offset as int, p) ==> (r.0 as int, r.1) == boundary_for(
                utf8(source@),
                tokens@,
                cursor_offset as int,
                p,
            ),
{
    let ghost src = utf8(source@);
    let bytes = source.as_bytes();
    let len = bytes.len();
    assert(len == src.len());
    let p = partition_at(tokens, cursor_offset, Ghost(len as int));
    proof {
        assert forall|q: int| split_at_cursor(tokens@, cursor_offset as int, q) implies q == p as int by {
            if q < p {
                assert(token_end(tokens@[q]) > cursor_offset);
            } else if q > p {
                assert(token_end(tokens@[p as int]) > cursor_offset);
            }
        }
    }
    let mut boundary = p;
    while boundary > 0 && tokens[boundary - 1].length == 0 && tokens[boundary - 1].offset == cursor_offset
        invariant
            0 <= boundary <= p <= tokens@.len(),
            skip_empty_at(tokens@, cursor_offset as int, boundary as int) == skip_empty_at(tokens@, cursor_offset as int, p as int),
        decreases boundary,
    {
        boundary -= 1;
    }
    assert(skip_empty_at(tokens@, cursor_offset as int, boundary as int) == boundary);
    let mut backtracked = false;
    if boundary > 0 {
        let tok = tokens[boundary - 1];
        assert(token_end(tokens@[boundary - 1]) <= src.len());
        if tok.offset + tok.length == cursor_offset && cursor_offset > 0 {
            let prev = bytes[cursor_offset - 1];
            if (48u8 <= prev && prev <= 57u8) || (65u8 <= prev && prev <= 90u8) || (97u8 <= prev && prev <= 122u8) || prev == 95u8 {
                boundary -= 1;
                backtracked = true;
            }
        }
    }
    (boundary, backtracked)
}

/// The index of the first token of the statement that ends at `boundary`:
/// just past the last `;` token before it, or 0.
pub fn statement_token_start(tokens: &[StoredToken], boundary: usize, semi: u32) -> (r: usize)
    requires
        boundary <= tokens@.len(),
    ensures
        r == after_last_of(tokens@, boundary as int, semi),
{
    let mut b = boundary;
    while b > 0
        invariant
            0 <= b <= boundary <= tokens@.len(),
            after_last_of(tokens@, b as int, semi) == after_last_of(tokens@, boundary as int, semi),
        decreases b,
    {
        if tokens[b - 1].token_type == semi {
            return b;
        }
        b -= 1;
    }
    0
}

/// A character boundary of a valid text is one of its tail from an earlier
/// boundary on.
proof fn lemma_boundary_in_tail(s: Seq<u8>, o: int, e: int)
    requires
        valid_utf8(s),
        is_char_boundary(s, o),
        is_char_boundary(s, e),
        0 <= o <= e <= s.len(),
    ensures
        valid_utf8(s.subrange(o, s.len() as int)),
        is_char_boundary(s.subrange(o, s.len() as int), e - o),
{
    let rest = s.subrange(o, s.len() as int);
    valid_utf8_split(s, o);
    is_char_boundary_start_end_of_seq(rest);
    if 0 < e - o < rest.len() {
        is_char_boundary_iff_not_is_continuation_byte(rest, e - o);
        is_char_boundary_iff_not_is_continuation_byte(s, e);
        assert(rest[e - o] == s[e]);
    }
    if e == s.len() {
        assert(e - o == rest.len());
    }
}

/// If the tokens end in `identifier DOT`, the identifier's text: the table
/// the cursor's column should be qualified by.
pub fn detect_qualifier(source: &str, tokens: &[StoredToken]) -> (r: Option<String>)
    requires
        ends_with_qualifier(utf8(source@), tokens@) ==> token_on_boundaries(utf8(source@), tokens@[tokens@.len() - 2]),
    ensures
        ends_with_qualifier(utf8(source@), tokens@) <==> r is Some,
        r matches Some(q) ==> utf8(q@) == qualifier_bytes(utf8(source@), tokens@),
{
    let ghost src = utf8(source@);
    if tokens.len() < 2 {
        return None;
    }
    let dot_tok = tokens[tokens.len() - 1];
    let ident_tok = tokens[tokens.len() - 2];
    let bytes = source.as_bytes();
    if dot_tok.length != 1 || dot_tok.offset >= bytes.len() || bytes[dot_tok.offset] != 46u8 {
        return None;
    }
    if !ident_tok.identifier {
        return None;
    }
    proof {
        encode_utf8_valid_utf8(source@);
        lemma_boundary_in_tail(src, ident_tok.offset as int, token_end(ident_tok));
    }
    let (_, rest) = source.split_at(ident_tok.offset);
    let (name, _) = rest.split_at(ident_tok.length);
    assert(name.spec_bytes() =~= src.subrange(ident_tok.offset as int, token_end(ident_tok)));
    Some(name.to_string())
}

/// Append to `into` the tokens of `extra` that it does not hold yet, in
/// order, each once.
pub fn merge_expected_tokens(into: &mut Vec<u32>, extra: Vec<u32>)
    ensures
        final(into)@ == old(into)@ + fresh_tokens(old(into)@, extra@),
{
    let ghost seen = into@;
    let mut i: usize = 0;
    while i < extra.len()
        invariant
            0 <= i <= extra@.len(),
            into@ == seen + fresh_tokens(seen, extra@.take(i as int)),
        decreases extra@.len() - i,
    {
        let token = extra[i];
        let ghost before = into@;
        let mut found = false;
        let mut k: usize = 0;
        while k < into.len()
            invariant
                0 <= k <= into@.len(),
                into@ == before,
                found == (exists|m: int| 0 <= m < k && into@[m] == token),
            decreases into@.len() - k,
        {
            if into[k] == token {
                found = true;
            }
            k += 1;
        }
        proof {
            let t = extra@.take(i + 1);
            assert(t.drop_last() =~= extra@.take(i as int));
            assert(t.last() == token);
            let f = fresh_tokens(seen, extra@.take(i as int));
            assert(before == seen + f);
            assert(found <==> (seen.contains(token) || f.contains(token))) by {
                if found {
                    let m = choose|m: int| 0 <= m < k && before[m] == token;
                    if m < seen.len() {
                        assert(seen[m] == token);
                    } else {
                        assert(f[m - seen.len()] == token);
                    }
                }
                if seen.contains(token) {
                    let m = choose|m: int| 0 <= m < seen.len() && seen[m] == token;
                    assert(before[m] == token);
                }
                if f.contains(token) {
                    let m = choose|m: int| 0 <= m < f.len() && f[m] == token;
                    assert(before[m + seen.len()] == token);
                }
            }
        }
        if !found {
            into.push(token);
            assert(into@ =~= seen + fresh_tokens(seen, extra@.take(i as int)).push(token));
        }
        i += 1;
    }
    assert(extra@.take(i as int) =~= extra@);
}

} // verus!
