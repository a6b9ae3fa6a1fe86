use vstd::prelude::*;
use crate::error::MemoryError;

verus! {

/// One position of a compiled pattern.
#[derive(Debug, Clone, PartialEq, Eq)]
pub enum PatternToken {
    /// Matches any byte.
    Wildcard,
    /// Matches exactly the bytes listed.
    AnyOf(Vec<u8>),
}

/// What a token accepts, as a mathematical value.
pub enum TokenModel {
    Wildcard,
    AnyOf(Seq<u8>),
}

impl View for PatternToken {
    type V = TokenModel;

    open spec fn view(&self) -> TokenModel {
        match self {
            PatternToken::Wildcard => TokenModel::Wildcard,
            PatternToken::AnyOf(v) => TokenModel::AnyOf(v@),
        }
    }
}

pub open spec fn tokens_view(p: Seq<PatternToken>) -> Seq<TokenModel> {
    p.map_values(|t: PatternToken| t@)
}

pub open spec fn token_matches(t: TokenModel, b: u8) -> bool {
    match t {
        TokenModel::Wildcard => true,
        TokenModel::AnyOf(s) => s.contains(b),
    }
}

/// The window of `buf` that starts at `i` fits and matches `pat` position by position.
pub open spec fn window_matches(buf: Seq<u8>, i: int, pat: Seq<TokenModel>) -> bool {
    &&& 0 <= i
    &&& i + pat.len() <= buf.len()
    &&& forall|j: int| 0 <= j < pat.len() ==> token_matches(#[trigger] pat[j], buf[i + j])
}

/// The matching start offsets below `n`, in increasing order.
pub open spec fn offsets_below(buf: Seq<u8>, pat: Seq<TokenModel>, n: int) -> Seq<int>
    decreases n,
{
    if n <= 0 {
        seq![]
    } else {
        let pre = offsets_below(buf, pat, n - 1);
        if window_matches(buf, n - 1, pat) {
            pre.push(n - 1)
        } else {
            pre
        }
    }
}

/// Every start offset at which `pat` matches `buf`, overlaps included, in
/// increasing order. An empty pattern matches nowhere.
pub open spec fn match_offsets(buf: Seq<u8>, pat: Seq<TokenModel>) -> Seq<int> {
    if pat.len() == 0 || pat.len() > buf.len() {
        seq![]
    } else {
        offsets_below(buf, pat, buf.len() - pat.len() + 1)
    }
}

// ---------------------------------------------------------------------------
// Text grammar: tokens separated by whitespace (any Unicode White_Space
// character, UTF-8 encoded), each `??` or two hex digits.

pub open spec fn is_ascii_space(b: u8) -> bool {
    b == 0x20 || b == 0x09 || b == 0x0a || b == 0x0b || b == 0x0c || b == 0x0d
}

/// The length of the UTF-8 encoding of a Unicode White_Space character that
/// starts at `i`, or `0` where none does.
pub open spec fn space_len(s: Seq<u8>, i: int) -> int {
    if 0 <= i < s.len() && is_ascii_space(s[i]) {
        1
    } else if 0 <= i && i + 1 < s.len() && s[i] == 0xc2 && (s[i + 1] == 0x85 || s[i + 1] == 0xa0) {
        2
    } else if 0 <= i && i + 2 < s.len() && (
    // U+1680
    (s[i] == 0xe1 && s[i + 1] == 0x9a && s[i + 2] == 0x80)
    // U+2000..U+200A, U+2028, U+2029, U+202F
    || (s[i] == 0xe2 && s[i + 1] == 0x80 && (0x80 <= s[i + 2] <= 0x8a || s[i + 2] == 0xa8
        || s[i + 2] == 0xa9 || s[i + 2] == 0xaf))
    // U+205F
    || (s[i] == 0xe2 && s[i + 1] == 0x81 && s[i + 2] == 0x9f)
    // U+3000
    || (s[i] == 0xe3 && s[i + 1] == 0x80 && s[i + 2] == 0x80)) {
        3
    } else {
        0
    }
}

pub open spec fn hex_digit(b: u8) -> Option<u8> {
    if 0x30 <= b <= 0x39 {
        Some((b - 0x30) as u8)
    } else if 0x41 <= b <= 0x46 {
        Some((b - 0x41 + 10) as u8)
    } else if 0x61 <= b <= 0x66 {
        Some((b - 0x61 + 10) as u8)
    } else {
        None
    }
}

/// The token that a two-byte word stands for, if it is one.
pub open spec fn word_token(a: u8, b: u8) -> Option<TokenModel> {
    if a == 0x3f && b == 0x3f {
        Some(TokenModel::Wildcard)
    } else {
        match (hex_digit(a), hex_digit(b)) {
            (Some(h), Some(l)) => Some(TokenModel::AnyOf(seq![(h * 16 + l) as u8])),
            _ => None,
        }
    }
}

pub open spec fn prepend(acc: Seq<TokenModel>, rest: Option<Seq<TokenModel>>) -> Option<
    Seq<TokenModel>,
> {
    match rest {
        Some(r) => Some(acc + r),
        None => None,
    }
}

/// The tokens of `s` from position `i` on, or `None` where a word is malformed.
pub open spec fn parse_from(s: Seq<u8>, i: int) -> Option<Seq<TokenModel>>
    decreases s.len() - i,
{
    if i >= s.len() || i < 0 {
        Some(seq![])
    } else if space_len(s, i) > 0 {
        parse_from(s, i + space_len(s, i))
    } else if i + 1 < s.len() && space_len(s, i + 1) == 0 && (i + 2 == s.len() || space_len(s, i + 2)
        > 0) {
        match word_token(s[i], s[i + 1]) {
            Some(t) => prepend(seq![t], parse_from(s, i + 2)),
            None => None,
        }
    } else {
        None
    }
}

pub open spec fn parse_spec(s: Seq<u8>) -> Option<Seq<TokenModel>> {
    parse_from(s, 0)
}

/// The length of the whitespace character that starts at `i`, `0` if none.
fn space_at(s: &[u8], i: usize) -> (r: usize)
    ensures
        r == space_len(s@, i as int),
{
    let n = s.len();
    if i >= n {
        return 0;
    }
    let b = s[i];
    if b == 0x20 || b == 0x09 || b == 0x0a || b == 0x0b || b == 0x0c || b == 0x0d {
        return 1;
    }
    if i + 1 < n && b == 0xc2 && (s[i + 1] == 0x85 || s[i + 1] == 0xa0) {
        return 2;
    }
    if n - i > 2 {
        let c = s[i + 1];
        let d = s[i + 2];
        if (b == 0xe1 && c == 0x9a && d == 0x80) || (b == 0xe2 && c == 0x80 && ((0x80 <= d && d
            <= 0x8a) || d == 0xa8 || d == 0xa9 || d == 0xaf)) || (b == 0xe2 && c == 0x81 && d
            == 0x9f) || (b == 0xe3 && c == 0x80 && d == 0x80) {
            return 3;
        }
    }
    0
}

fn hex_value(b: u8) -> (r: Option<u8>)
    ensures
        r == hex_digit(b),
{
    if 0x30 <= b && b <= 0x39 {
        Some(b - 0x30)
    } else if 0x41 <= b && b <= 0x46 {
        Some(b - 0x41 + 10)
    } else if 0x61 <= b && b <= 0x66 {
        Some(b - 0x61 + 10)
    } else {
        None
    }
}

fn token_of_word(a: u8, b: u8) -> (r: Option<PatternToken>)
    ensures
        match word_token(a, b) {
            Some(t) => r is Some && r->Some_0@ == t,
            None => r is None,
        },
{
    if a == 0x3f && b == 0x3f {
        return Some(PatternToken::Wildcard);
    }
    match (hex_value(a), hex_value(b)) {
        (Some(h), Some(l)) => {
            let byte: u8 = h * 16 + l;
            let v = vec![byte];
            assert(v@ =~= seq![(h * 16 + l) as u8]);
            Some(PatternToken::AnyOf(v))
        },
        _ => None,
    }
}

/// Compiles a whitespace-separated pattern (`??` or two hex digits per token).
pub fn parse_pattern(text: &[u8]) -> (r: Result<Vec<PatternToken>, MemoryError>)
    ensures
        match parse_spec(text@) {
            Some(m) => r is Ok && tokens_view(r->Ok_0@) == m,
            None => r == Err::<Vec<PatternToken>, MemoryError>(MemoryError::MalformedPattern),
        },
{
    let mut out: Vec<PatternToken> = Vec::new();
    let mut i: usize = 0;
    while i < text.len()
        invariant
            i <= text.len(),
            prepend(tokens_view(out@), parse_from(text@, i as int)) == parse_spec(text@),
        decreases text.len() - i,
    {
        let skip = space_at(text, i);
        if skip > 0 {
            i = i + skip;
        } else if i + 1 < text.len() && space_at(text, i + 1) == 0 && (i + 2 == text.len()
            || space_at(text, i + 2) > 0) {
            match token_of_word(text[i], text[i + 1]) {
                Some(t) => {
                    proof {
                        let acc = tokens_view(out@);
                        let rest = parse_from(text@, i + 2);
                        assert(tokens_view(out@.push(t)) =~= acc.push(t@));
                        match rest {
                            Some(rr) => {
                                assert(acc + (seq![t@] + rr) =~= acc.push(t@) + rr);
                            },
                            None => {},
                        }
                    }
                    out.push(t);
                    i = i + 2;
                },
                None => {
                    return Err(MemoryError::MalformedPattern);
                },
            }
        } else {
            return Err(MemoryError::MalformedPattern);
        }
    }
    proof {
        assert(tokens_view(out@) + seq![] =~= tokens_view(out@));
    }
    Ok(out)
}

// ---------------------------------------------------------------------------
// Matching

fn byte_in(set: &Vec<u8>, b: u8) -> (r: bool)
    ensures
        r == set@.contains(b),
{
    let mut k: usize = 0;
    while k < set.len()
        invariant
            k <= set.len(),
            forall|m: int| 0 <= m < k ==> set@[m] != b,
        decreases set.len() - k,
    {
        if set[k] == b {
            return true;
        }
        k = k + 1;
    }
    false
}

/// Whether one token accepts one byte.
pub fn token_accepts(t: &PatternToken, b: u8) -> (r: bool)
    ensures
        r == token_matches(t@, b),
{
    match t {
        PatternToken::Wildcard => true,
        PatternToken::AnyOf(set) => byte_in(set, b),
    }
}

/// Whether `pattern` matches `buf` at offset `start`.
pub fn compare_func(buf: &[u8], start: usize, pattern: &[PatternToken]) -> (r: bool)
    ensures
        r == window_matches(buf@, start as int, tokens_view(pattern@)),
{
    if pattern.len() > buf.len() || start > buf.len() - pattern.len() {
        return false;
    }
    let ghost pv = tokens_view(pattern@);
    let mut j: usize = 0;
    while j < pattern.len()
        invariant
            j <= pattern.len(),
            start + pattern.len() <= buf.len(),
            pv == tokens_view(pattern@),
            forall|m: int| 0 <= m < j ==> token_matches(#[trigger] pv[m], buf@[start + m]),
        decreases pattern.len() - j,
    {
        if !token_accepts(&pattern[j], buf[start + j]) {
            assert(pv[j as int] == pattern@[j as int]@);
            return false;
        }
        j = j + 1;
    }
    true
}

/// Every offset at which `pattern` matches `buf`, overlapping matches included.
pub fn find_all_occurrences(buf: &[u8], pattern: &[PatternToken]) -> (r: Vec<usize>)
    ensures
        r@.map_values(|o: usize| o as int) == match_offsets(buf@, tokens_view(pattern@)),
{
    let mut occurrences: Vec<usize> = Vec::new();
    if pattern.len() == 0 || pattern.len() > buf.len() {
        assert(occurrences@.map_values(|o: usize| o as int) =~= seq![]);
        return occurrences;
    }
    let ghost pv = tokens_view(pattern@);
    let last: usize = buf.len() - pattern.len();
    let mut start: usize = 0;
    while start <= last
        invariant
            0 < pattern.len() <= buf.len(),
            last == buf.len() - pattern.len(),
            start <= last + 1,
            pv == tokens_view(pattern@),
            occurrences@.map_values(|o: usize| o as int) == offsets_below(buf@, pv, start as int),
        decreases last + 1 - start,
    {
        let ghost before = occurrences@;
        if compare_func(buf, start, pattern) {
            occurrences.push(start);
            assert(occurrences@.map_values(|o: usize| o as int) =~= before.map_values(
                |o: usize| o as int,
            ).push(start as int));
        }
        start = start + 1;
    }
    occurrences
}

// ---------------------------------------------------------------------------
// Laws of matching

/// The offsets below `n` are exactly the matching offsets in `[0, n)`, in
/// strictly increasing order.
pub proof fn lemma_offsets_below(buf: Seq<u8>, pat: Seq<TokenModel>, n: int)
    ensures
        forall|k: int| #[trigger]
            offsets_below(buf, pat, n).contains(k) <==> (0 <= k < n && window_matches(buf, k, pat)),
        forall|a: int, b: int|
            0 <= a < b < offsets_below(buf, pat, n).len() ==> offsets_below(buf, pat, n)[a]
                < offsets_below(buf, pat, n)[b],
        forall|a: int|
            0 <= a < offsets_below(buf, pat, n).len() ==> 0 <= #[trigger] offsets_below(
                buf,
                pat,
                n,
            )[a] < n,
    decreases n,
{
    if n > 0 {
        lemma_offsets_below(buf, pat, n - 1);
        let pre = offsets_below(buf, pat, n - 1);
        if window_matches(buf, n - 1, pat) {
            assert forall|k: int| #[trigger]
                pre.push(n - 1).contains(k) <==> (pre.contains(k) || k == n - 1) by {
                if pre.push(n - 1).contains(k) {
                    let w = choose|w: int| 0 <= w < pre.len() + 1 && #[trigger] pre.push(n - 1)[w] == k;
                    if w < pre.len() {
                        assert(pre[w] == k);
                    }
                }
                if pre.contains(k) {
                    let w = choose|w: int| 0 <= w < pre.len() && #[trigger] pre[w] == k;
                    assert(pre.push(n - 1)[w] == k);
                }
                if k == n - 1 {
                    assert(pre.push(n - 1)[pre.len() as int] == k);
                }
            }
        }
    }
}

/// A match is reported at offset `i` exactly when the window at `i` fits and
/// matches, and the offsets come in strictly increasing order.
pub proof fn lemma_match_offsets(buf: Seq<u8>, pat: Seq<TokenModel>)
    ensures
        forall|i: int| #[trigger]
            match_offsets(buf, pat).contains(i) <==> (pat.len() > 0 && window_matches(buf, i, pat)),
        forall|a: int, b: int|
            0 <= a < b < match_offsets(buf, pat).len() ==> match_offsets(buf, pat)[a]
                < match_offsets(buf, pat)[b],
{
    if pat.len() > 0 && pat.len() <= buf.len() {
        lemma_offsets_below(buf, pat, buf.len() - pat.len() + 1);
    }
}

/// The compiled form of a run of concrete bytes: one singleton set per byte.
pub open spec fn concrete_pattern(bytes: Seq<u8>) -> Seq<TokenModel> {
    bytes.map_values(|b: u8| TokenModel::AnyOf(seq![b]))
}

/// A pattern of wildcards only.
pub open spec fn wildcard_pattern(k: nat) -> Seq<TokenModel> {
    Seq::new(k, |j: int| TokenModel::Wildcard)
}

/// A pattern of `k > 0` concrete bytes matches at offset `i` exactly when the
/// `k` bytes of the buffer from `i` on equal the pattern's bytes.
pub proof fn law_concrete_exactness(buf: Seq<u8>, bytes: Seq<u8>, i: int)
    requires
        bytes.len() > 0,
    ensures
        match_offsets(buf, concrete_pattern(bytes)).contains(i) <==> (0 <= i && i + bytes.len()
            <= buf.len() && buf.subrange(i, i + bytes.len() as int) == bytes),
{
    let pat = concrete_pattern(bytes);
    lemma_match_offsets(buf, pat);
    if window_matches(buf, i, pat) {
        assert forall|j: int| 0 <= j < bytes.len() implies buf.subrange(
            i,
            i + bytes.len() as int,
        )[j] == bytes[j] by {
            assert(token_matches(pat[j], buf[i + j]));
            assert(seq![bytes[j]].contains(buf[i + j]));
            assert(seq![bytes[j]][0] == bytes[j]);
        }
        assert(buf.subrange(i, i + bytes.len() as int) =~= bytes);
    }
    if 0 <= i && i + bytes.len() <= buf.len() && buf.subrange(i, i + bytes.len() as int) == bytes {
        assert forall|j: int| 0 <= j < pat.len() implies token_matches(#[trigger] pat[j], buf[i + j]) by {
            assert(buf.subrange(i, i + bytes.len() as int)[j] == buf[i + j]);
            assert(seq![bytes[j]][0] == buf[i + j]);
        }
    }
}

/// A pattern of `k > 0` wildcards matches at every offset from `0` to
/// `buf.len() - k`, and nowhere in a buffer shorter than `k`.
pub proof fn law_wildcard_identity(buf: Seq<u8>, k: nat)
    requires
        k > 0,
    ensures
        k <= buf.len() ==> match_offsets(buf, wildcard_pattern(k)) == Seq::new(
            (buf.len() - k + 1) as nat,
            |i: int| i,
        ),
        k > buf.len() ==> match_offsets(buf, wildcard_pattern(k)) == Seq::<int>::empty(),
{
    if k <= buf.len() {
        lemma_wildcards_below(buf, k, buf.len() - k + 1);
    }
}

proof fn lemma_wildcards_below(buf: Seq<u8>, k: nat, n: int)
    requires
        0 <= n <= buf.len() - k + 1,
    ensures
        offsets_below(buf, wildcard_pattern(k), n) == Seq::new(n as nat, |i: int| i),
    decreases n,
{
    if n > 0 {
        lemma_wildcards_below(buf, k, n - 1);
        assert(window_matches(buf, n - 1, wildcard_pattern(k)));
        assert(Seq::new((n - 1) as nat, |i: int| i).push(n - 1) =~= Seq::new(n as nat, |i: int| i));
    } else {
        assert(Seq::new(0, |i: int| i) =~= Seq::<int>::empty());
    }
}

} // verus!
