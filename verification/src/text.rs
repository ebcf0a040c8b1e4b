//! Text helpers shared by every report: truncation for fixed-width columns,
//! ordering and comparison of strings, substring tests, and the few std
//! string functions whose results depend on Unicode tables.
use vstd::prelude::*;
use vstd::string::StringSliceAdditionalSpecFns;
use vstd::utf8::*;

verus! {

/// Unicode horizontal ellipsis, appended to truncated cells.
pub open spec fn ellipsis() -> char {
    '\u{2026}'
}

/// `s` cut to at most `max` characters: unchanged when it fits, otherwise its
/// first `max - 1` characters followed by an ellipsis; empty when `max` is 0.
pub open spec fn truncated(s: Seq<char>, max: nat) -> Seq<char> {
    if s.len() <= max {
        s
    } else if max == 0 {
        Seq::empty()
    } else {
        s.take(max - 1).push(ellipsis())
    }
}

/// Strict lexicographic order on character sequences (by code point), the
/// order in which Rust compares two `&str` values.
pub open spec fn lex_lt(a: Seq<char>, b: Seq<char>) -> bool
    decreases a.len(),
{
    if b.len() == 0 {
        false
    } else if a.len() == 0 {
        true
    } else if a[0] != b[0] {
        (a[0] as u32) < (b[0] as u32)
    } else {
        lex_lt(a.drop_first(), b.drop_first())
    }
}

/// `pat` occurs in `s` as a contiguous run of characters.
pub open spec fn has_substring(s: Seq<char>, pat: Seq<char>) -> bool {
    exists|i: int| 0 <= i && i + pat.len() <= s.len() && #[trigger] s.subrange(i, i + pat.len()) == pat
}

/// The code of `c` with ASCII upper-case letters mapped to lower case.
pub open spec fn ascii_lower_code(c: char) -> u32 {
    if 65 <= (c as u32) && (c as u32) <= 90 {
        ((c as u32) + 32) as u32
    } else {
        c as u32
    }
}

/// The two sequences are equal when ASCII letters are compared without case.
pub open spec fn eq_ignoring_ascii_case(a: Seq<char>, b: Seq<char>) -> bool {
    a.len() == b.len() && forall|i: int| 0 <= i < a.len() ==> ascii_lower_code(#[trigger] a[i]) == ascii_lower_code(b[i])
}

/// `s` with every leading occurrence of `pat` removed; `s` itself when `pat`
/// is empty.
pub open spec fn strip_repeated_prefix(s: Seq<char>, pat: Seq<char>) -> Seq<char>
    decreases s.len(),
{
    if pat.len() > 0 && pat.len() <= s.len() && s.take(pat.len() as int) == pat {
        strip_repeated_prefix(s.skip(pat.len() as int), pat)
    } else {
        s
    }
}

/// The first `n` bytes of `s` (all of it when shorter) end on a character boundary.
pub open spec fn byte_prefix_ok(s: Seq<char>, n: nat) -> bool {
    let bytes = encode_utf8(s);
    &&& bytes.len() <= usize::MAX
    &&& is_char_boundary(bytes, if n < bytes.len() { n as int } else { bytes.len() as int })
}

/// The first `n` bytes of the UTF-8 encoding of `s` (all of it when shorter).
pub open spec fn byte_prefix_of(s: Seq<char>, n: nat) -> Seq<u8> {
    let bytes = encode_utf8(s);
    bytes.take(if n < bytes.len() { n as int } else { bytes.len() as int })
}

/// The characters with the Unicode property White_Space, which is what
/// `char::is_whitespace` tests.
pub open spec fn is_white_space(c: char) -> bool {
    let u = c as u32;
    ||| 0x09 <= u <= 0x0d
    ||| u == 0x20
    ||| u == 0x85
    ||| u == 0xa0
    ||| u == 0x1680
    ||| 0x2000 <= u <= 0x200a
    ||| u == 0x2028
    ||| u == 0x2029
    ||| u == 0x202f
    ||| u == 0x205f
    ||| u == 0x3000
}

/// The text without its leading white space.
pub open spec fn trimmed_start(s: Seq<char>) -> Seq<char>
    decreases s.len(),
{
    if s.len() > 0 && is_white_space(s[0]) {
        trimmed_start(s.drop_first())
    } else {
        s
    }
}

/// The text without its trailing white space.
pub open spec fn trimmed_end(s: Seq<char>) -> Seq<char>
    decreases s.len(),
{
    if s.len() > 0 && is_white_space(s.last()) {
        trimmed_end(s.drop_last())
    } else {
        s
    }
}

/// What `str::trim` returns: the text without leading and trailing white space.
pub open spec fn trimmed(s: Seq<char>) -> Seq<char> {
    trimmed_end(trimmed_start(s))
}

/// What `str::to_lowercase` returns for a text that is not all ASCII: its
/// Unicode lower-case mapping.
pub uninterp spec fn unicode_lowercase(s: Seq<char>) -> Seq<char>;

/// Every character of `s` is ASCII.
pub open spec fn is_ascii_text(s: Seq<char>) -> bool {
    forall|i: int| 0 <= i < s.len() ==> (#[trigger] s[i] as u32) < 128
}

/// `s` with the ASCII upper-case letters A-Z mapped to a-z.
pub open spec fn ascii_lowercase(s: Seq<char>) -> Seq<char> {
    Seq::new(s.len(), |i: int| ascii_lower_code(s[i]) as char)
}

/// What `str::to_lowercase` returns: on ASCII text the Unicode mapping maps
/// A-Z to a-z and keeps every other character; beyond ASCII it is named.
pub open spec fn lowercased(s: Seq<char>) -> Seq<char> {
    if is_ascii_text(s) {
        ascii_lowercase(s)
    } else {
        unicode_lowercase(s)
    }
}

/// What `str::to_uppercase` returns for a text that is not all ASCII: its
/// Unicode upper-case mapping.
pub uninterp spec fn unicode_uppercase(s: Seq<char>) -> Seq<char>;

/// The code of `c` with ASCII lower-case letters mapped to upper case.
pub open spec fn ascii_upper_code(c: char) -> u32 {
    if 97 <= (c as u32) && (c as u32) <= 122 {
        ((c as u32) - 32) as u32
    } else {
        c as u32
    }
}

/// `s` with the ASCII lower-case letters a-z mapped to A-Z.
pub open spec fn ascii_uppercase(s: Seq<char>) -> Seq<char> {
    Seq::new(s.len(), |i: int| ascii_upper_code(s[i]) as char)
}

/// What `str::to_uppercase` returns: on ASCII text the Unicode mapping maps
/// a-z to A-Z and keeps every other character; beyond ASCII it is named.
pub open spec fn uppercased(s: Seq<char>) -> Seq<char> {
    if is_ascii_text(s) {
        ascii_uppercase(s)
    } else {
        unicode_uppercase(s)
    }
}

/// Calls `str::trim`, which removes the leading and trailing characters for
/// which `char::is_whitespace` holds.
#[verifier::external_body]
pub(crate) fn trim(s: &str) -> (r: String)
    ensures
        r@ == trimmed(s@),
{
    s.trim().to_string()
}

/// Calls `str::to_lowercase`, the Unicode lower-case mapping: on ASCII text
/// it lower-cases A-Z and keeps the rest; beyond ASCII its result is named
/// `unicode_lowercase`.
#[verifier::external_body]
pub(crate) fn to_lowercase(s: &str) -> (r: String)
    ensures
        is_ascii_text(s@) ==> r@ == ascii_lowercase(s@),
        !is_ascii_text(s@) ==> r@ == unicode_lowercase(s@),
{
    s.to_lowercase()
}

/// Calls `str::to_uppercase`, the Unicode upper-case mapping: on ASCII text
/// it upper-cases a-z and keeps the rest; beyond ASCII its result is named
/// `unicode_uppercase`.
#[verifier::external_body]
pub(crate) fn to_uppercase(s: &str) -> (r: String)
    ensures
        is_ascii_text(s@) ==> r@ == ascii_uppercase(s@),
        !is_ascii_text(s@) ==> r@ == unicode_uppercase(s@),
{
    s.to_uppercase()
}

/// Copy of a string slice.
pub fn owned(s: &str) -> (r: String)
    ensures
        r@ == s@,
{
    s.to_owned()
}

/// Character-wise equality of two strings.
pub fn text_eq(a: &str, b: &str) -> (r: bool)
    ensures
        r == (a@ == b@),
{
    let n = a.unicode_len();
    let m = b.unicode_len();
    if n != m {
        return false;
    }
    let mut i: usize = 0;
    while i < n
        invariant
            n == a@.len(),
            m == b@.len(),
            n == m,
            i <= n,
            forall|j: int| 0 <= j < i ==> a@[j] == b@[j],
        decreases n - i,
    {
        if a.get_char(i) != b.get_char(i) {
            return false;
        }
        i = i + 1;
    }
    assert(a@ =~= b@);
    true
}

/// Comparing a common prefix away does not change the order.
proof fn lemma_lex_lt_skip(a: Seq<char>, b: Seq<char>, i: int)
    requires
        0 <= i <= a.len(),
        i <= b.len(),
        forall|j: int| 0 <= j < i ==> a[j] == b[j],
    ensures
        lex_lt(a, b) == lex_lt(a.skip(i), b.skip(i)),
    decreases i,
{
    if i > 0 {
        lemma_lex_lt_skip(a.drop_first(), b.drop_first(), i - 1);
        assert(a.drop_first().skip(i - 1) =~= a.skip(i));
        assert(b.drop_first().skip(i - 1) =~= b.skip(i));
    } else {
        assert(a.skip(0) =~= a);
        assert(b.skip(0) =~= b);
    }
}

/// `a < b` in the lexicographic order of their characters.
pub fn text_lt(a: &str, b: &str) -> (r: bool)
    ensures
        r == lex_lt(a@, b@),
{
    let n = a.unicode_len();
    let m = b.unicode_len();
    let mut i: usize = 0;
    while i < n && i < m
        invariant
            n == a@.len(),
            m == b@.len(),
            i <= n,
            i <= m,
            forall|j: int| 0 <= j < i ==> a@[j] == b@[j],
        decreases n - i,
    {
        let ca = a.get_char(i);
        let cb = b.get_char(i);
        if ca != cb {
            proof {
                lemma_lex_lt_skip(a@, b@, i as int);
                assert(a@.skip(i as int)[0] == ca);
                assert(b@.skip(i as int)[0] == cb);
            }
            return (ca as u32) < (cb as u32);
        }
        i = i + 1;
    }
    proof {
        lemma_lex_lt_skip(a@, b@, i as int);
    }
    n < m
}

/// Whether `s` holds `pat` as a substring.
pub fn text_contains(s: &str, pat: &str) -> (r: bool)
    ensures
        r == has_substring(s@, pat@),
{
    let n = s.unicode_len();
    let m = pat.unicode_len();
    if m > n {
        assert forall|i: int| 0 <= i && i + pat@.len() <= s@.len() implies #[trigger] s@.subrange(i, i + pat@.len()) != pat@ by {}
        return false;
    }
    let mut i: usize = 0;
    while i <= n - m
        invariant
            n == s@.len(),
            m == pat@.len(),
            m <= n,
            i <= n - m + 1,
            forall|k: int| 0 <= k < i ==> #[trigger] s@.subrange(k, k + m) != pat@,
        decreases n - m + 1 - i,
    {
        let mut j: usize = 0;
        let mut same = true;
        while j < m
            invariant
                n == s@.len(),
                m == pat@.len(),
                i + m <= n,
                j <= m,
                same == (forall|t: int| 0 <= t < j ==> s@[i + t] == pat@[t]),
            decreases m - j,
        {
            if s.get_char(i + j) != pat.get_char(j) {
                same = false;
            }
            j = j + 1;
        }
        if same {
            assert(s@.subrange(i as int, i + m) =~= pat@);
            return true;
        }
        assert(!(s@.subrange(i as int, i + m) =~= pat@));
        i = i + 1;
    }
    assert forall|k: int| 0 <= k && k + pat@.len() <= s@.len() implies #[trigger] s@.subrange(k, k + pat@.len()) != pat@ by {
        assert(k < i);
    }
    false
}

/// ASCII case-insensitive equality, as `str::eq_ignore_ascii_case` decides it.
pub fn text_eq_ignore_ascii_case(a: &str, b: &str) -> (r: bool)
    ensures
        r == eq_ignoring_ascii_case(a@, b@),
{
    let n = a.unicode_len();
    let m = b.unicode_len();
    if n != m {
        return false;
    }
    let mut i: usize = 0;
    while i < n
        invariant
            n == a@.len(),
            m == b@.len(),
            n == m,
            i <= n,
            forall|j: int| 0 <= j < i ==> ascii_lower_code(#[trigger] a@[j]) == ascii_lower_code(b@[j]),
        decreases n - i,
    {
        let ca = a.get_char(i) as u32;
        let cb = b.get_char(i) as u32;
        let la = if 65 <= ca && ca <= 90 { ca + 32 } else { ca };
        let lb = if 65 <= cb && cb <= 90 { cb + 32 } else { cb };
        if la != lb {
            assert(ascii_lower_code(a@[i as int]) != ascii_lower_code(b@[i as int]));
            return false;
        }
        i = i + 1;
    }
    true
}

/// Whether `s` begins with the character `c`.
pub fn starts_with_char(s: &str, c: char) -> (r: bool)
    ensures
        r == (s@.len() > 0 && s@[0] == c),
{
    s.unicode_len() > 0 && s.get_char(0) == c
}

/// `s` without the prefix `p`, when it starts with `p`.
pub fn strip_prefix(s: &str, p: &str) -> (r: Option<String>)
    ensures
        p@.is_prefix_of(s@) ==> (r matches Some(rest) && rest@ == s@.skip(p@.len() as int)),
        !p@.is_prefix_of(s@) ==> r is None,
{
    let n = s.unicode_len();
    let m = p.unicode_len();
    if m > n {
        return None;
    }
    if text_eq(s.substring_char(0, m), p) {
        assert(s@.subrange(0, m as int) =~= s@.take(m as int));
        Some(owned(s.substring_char(m, n)))
    } else {
        assert(!p@.is_prefix_of(s@)) by {
            if p@.is_prefix_of(s@) {
                assert(s@.subrange(0, m as int) =~= p@);
            }
        }
        None
    }
}

/// `s` with every leading occurrence of `pat` removed (`str::trim_start_matches`
/// with a string pattern); an empty pattern leaves `s` as it is.
pub fn trim_start_matches(s: &str, pat: &str) -> (r: String)
    ensures
        r@ == strip_repeated_prefix(s@, pat@),
{
    let mut cur = owned(s);
    let m = pat.unicode_len();
    if m == 0 {
        return cur;
    }
    loop
        invariant
            m == pat@.len(),
            m > 0,
            strip_repeated_prefix(cur@, pat@) == strip_repeated_prefix(s@, pat@),
        decreases cur@.len(),
    {
        let n = cur.unicode_len();
        if m <= n && text_eq(cur.as_str().substring_char(0, m), pat) {
            assert(cur@.subrange(0, m as int) =~= cur@.take(m as int));
            let next = owned(cur.as_str().substring_char(m, n));
            assert(next@ =~= cur@.skip(m as int));
            cur = next;
        } else {
            proof {
                if m <= n {
                    assert(cur@.subrange(0, m as int) =~= cur@.take(m as int));
                }
            }
            return cur;
        }
    }
}

/// `s` cut to at most `max` characters, with an ellipsis marking a cut.
pub fn truncate(s: &str, max: usize) -> (r: String)
    ensures
        r@ == truncated(s@, max as nat),
{
    let n = s.unicode_len();
    if n <= max {
        owned(s)
    } else if max == 0 {
        String::new()
    } else {
        let keep: usize = max - 1;
        let mut t = owned(s.substring_char(0, keep));
        t.append("\u{2026}");
        proof {
            reveal_strlit("\u{2026}");
            assert(t@ =~= s@.take(keep as int).push(ellipsis()));
        }
        t
    }
}

/// The first `n` bytes of `s` (all of it when shorter), as `&s[..s.len().min(n)]`
/// takes them; the cut must fall on a character boundary.
pub fn byte_prefix(s: &str, n: usize) -> (r: String)
    requires
        byte_prefix_ok(s@, n as nat),
    ensures
        encode_utf8(r@) == byte_prefix_of(s@, n as nat),
{
    assert(s.spec_bytes() == encode_utf8(s@));
    let len = s.as_bytes().len();
    let k = if n < len { n } else { len };
    let (head, _tail) = s.split_at(k);
    let r = owned(head);
    assert(head.spec_bytes() == encode_utf8(head@));
    assert(encode_utf8(s@).subrange(0, k as int) =~= encode_utf8(s@).take(k as int));
    r
}

/// Whether `byte_prefix(s, n)` may be taken.
pub fn byte_prefix_allowed(s: &str, n: usize) -> (r: bool)
    ensures
        r == byte_prefix_ok(s@, n as nat),
{
    assert(s.spec_bytes() == encode_utf8(s@));
    let len = s.as_bytes().len();
    let k = if n < len { n } else { len };
    s.is_char_boundary(k)
}

/// `lex_lt` is irreflexive.
pub proof fn lemma_lex_irreflexive(a: Seq<char>)
    ensures
        !lex_lt(a, a),
    decreases a.len(),
{
    if a.len() > 0 {
        lemma_lex_irreflexive(a.drop_first());
    }
}

/// Two different sequences are ordered one way or the other, never both.
pub proof fn lemma_lex_total(a: Seq<char>, b: Seq<char>)
    ensures
        a != b ==> (lex_lt(a, b) || lex_lt(b, a)),
        !(lex_lt(a, b) && lex_lt(b, a)),
    decreases a.len(),
{
    if a.len() > 0 && b.len() > 0 && a[0] == b[0] {
        lemma_lex_total(a.drop_first(), b.drop_first());
        if a != b {
            assert(a.drop_first() != b.drop_first()) by {
                if a.drop_first() == b.drop_first() {
                    assert(a =~= seq![a[0]] + a.drop_first());
                    assert(b =~= seq![b[0]] + b.drop_first());
                }
            }
        }
    } else if a.len() == 0 && b.len() == 0 {
        assert(a =~= b);
    } else if a.len() > 0 && b.len() > 0 {
        vstd::utf8::char_u32_cast(a[0], a[0] as u32);
        vstd::utf8::char_u32_cast(b[0], b[0] as u32);
    }
}

/// `lex_lt` is transitive.
pub proof fn lemma_lex_transitive(a: Seq<char>, b: Seq<char>, c: Seq<char>)
    requires
        lex_lt(a, b),
        lex_lt(b, c),
    ensures
        lex_lt(a, c),
    decreases a.len(),
{
    if a.len() > 0 && b.len() > 0 && c.len() > 0 && a[0] == b[0] && b[0] == c[0] {
        lemma_lex_transitive(a.drop_first(), b.drop_first(), c.drop_first());
    }
}

/// Index `a` comes before index `b` when ordering by `keys`, ties broken by index.
pub open spec fn ordered_before(keys: Seq<Seq<char>>, a: int, b: int) -> bool {
    lex_lt(keys[a], keys[b]) || (keys[a] == keys[b] && a < b)
}

/// `order` lists every index of `keys` once, sorted by key, equal keys in
/// their original order: the result of a stable sort by key.
pub open spec fn is_stable_sort_order(keys: Seq<Seq<char>>, order: Seq<usize>) -> bool {
    &&& order.len() == keys.len()
    &&& forall|i: int| 0 <= i < order.len() ==> #[trigger] order[i] < keys.len()
    &&& forall|i: int, j: int|
        0 <= i < j < order.len() ==> ordered_before(keys, #[trigger] order[i] as int, #[trigger] order[j] as int)
}

/// The indices of `keys` in stable sorted order of the keys.
pub fn stable_sort_order(keys: &Vec<String>) -> (r: Vec<usize>)
    ensures
        is_stable_sort_order(keys@.map_values(|k: String| k@), r@),
{
    let ghost ks = keys@.map_values(|k: String| k@);
    let n = keys.len();
    let mut order: Vec<usize> = Vec::new();
    let mut i: usize = 0;
    while i < n
        invariant
            n == keys@.len(),
            ks == keys@.map_values(|k: String| k@),
            i <= n,
            order@.len() == i,
            forall|t: int| 0 <= t < order@.len() ==> #[trigger] order@[t] < i,
            forall|s: int, t: int|
                0 <= s < t < order@.len() ==> ordered_before(ks, #[trigger] order@[s] as int, #[trigger] order@[t] as int),
        decreases n - i,
    {
        let mut p: usize = 0;
        while p < order.len() && !text_lt(keys[i].as_str(), keys[order[p]].as_str())
            invariant
                n == keys@.len(),
                ks == keys@.map_values(|k: String| k@),
                i < n,
                p <= order@.len(),
                forall|t: int| 0 <= t < order@.len() ==> #[trigger] order@[t] < i,
                forall|t: int| 0 <= t < p ==> !lex_lt(ks[i as int], ks[#[trigger] order@[t] as int]),
            decreases order@.len() - p,
        {
            p = p + 1;
        }
        let ghost old_order = order@;
        proof {
            assert(p < old_order.len() ==> lex_lt(ks[i as int], ks[old_order[p as int] as int]));
        }
        order.insert(p, i);
        proof {
            assert(order@ == old_order.insert(p as int, i));
            assert forall|s: int, t: int| 0 <= s < t < order@.len() implies ordered_before(ks, #[trigger] order@[s] as int, #[trigger] order@[t] as int) by {
                if t < p {
                    assert(order@[s] == old_order[s] && order@[t] == old_order[t]);
                } else if t == p {
                    let x = old_order[s];
                    assert(order@[s] == x);
                    lemma_lex_total(ks[x as int], ks[i as int]);
                } else if s == p {
                    let y = old_order[t - 1];
                    assert(order@[t] == y);
                    if t - 1 > p {
                        let z = old_order[p as int];
                        assert(ordered_before(ks, z as int, y as int));
                        if lex_lt(ks[z as int], ks[y as int]) {
                            lemma_lex_transitive(ks[i as int], ks[z as int], ks[y as int]);
                        }
                    }
                } else if s < p {
                    assert(order@[s] == old_order[s] && order@[t] == old_order[t - 1]);
                } else {
                    assert(order@[s] == old_order[s - 1] && order@[t] == old_order[t - 1]);
                }
            }
        }
        i = i + 1;
    }
    order
}

/// Law: a cut cell never exceeds its width, keeps text that fits unchanged,
/// and otherwise, for a width of at least one character, starts with the
/// text's own first characters and ends with the ellipsis.
pub proof fn lemma_truncated_fits(s: Seq<char>, max: nat)
    ensures
        truncated(s, max).len() <= max,
        s.len() <= max ==> truncated(s, max) == s,
        s.len() > max && max >= 1 ==> {
            let t = truncated(s, max);
            &&& t.last() == ellipsis()
            &&& t.drop_last().is_prefix_of(s)
        },
{
    if s.len() > max && max >= 1 {
        assert(truncated(s, max).drop_last() =~= s.take(max - 1));
    }
}

} // verus!
