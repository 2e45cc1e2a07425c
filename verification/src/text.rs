//! Text building blocks: character views, joins, replacements, trimming,
//! decimal and hexadecimal rendering, and byte-offset slicing of UTF-8 text.

use vstd::prelude::*;
use vstd::utf8::*;
use vstd::string::StringSliceAdditionalSpecFns;

verus! {

broadcast use vstd::utf8::group_utf8_lib;

// ---------------------------------------------------------------------------
// Spec-level helpers
// ---------------------------------------------------------------------------

/// `parts` joined with `sep` between neighbours (std's `join`).
pub open spec fn join_spec(parts: Seq<Seq<char>>, sep: Seq<char>) -> Seq<char>
    decreases parts.len(),
{
    if parts.len() == 0 {
        Seq::empty()
    } else if parts.len() == 1 {
        parts[0]
    } else {
        join_spec(parts.drop_last(), sep) + sep + parts.last()
    }
}

/// Replaces every occurrence of `c` in `s` by `by`.
pub open spec fn replace_char_spec(s: Seq<char>, c: char, by: Seq<char>) -> Seq<char>
    decreases s.len(),
{
    if s.len() == 0 {
        Seq::empty()
    } else {
        replace_char_spec(s.drop_last(), c, by) + (if s.last() == c {
            by
        } else {
            seq![s.last()]
        })
    }
}

/// A character occurs after replacing `c` by a text that lacks it only where
/// it occurred before, and only if it is not `c`.
pub proof fn lemma_replace_char_contains(s: Seq<char>, c: char, by: Seq<char>, d: char)
    requires
        !by.contains(d),
    ensures
        replace_char_spec(s, c, by).contains(d) ==> s.contains(d) && d != c,
    decreases s.len(),
{
    if s.len() > 0 {
        let rest = replace_char_spec(s.drop_last(), c, by);
        let tail = if s.last() == c {
            by
        } else {
            seq![s.last()]
        };
        lemma_replace_char_contains(s.drop_last(), c, by, d);
        if replace_char_spec(s, c, by).contains(d) {
            let k = choose|k: int| 0 <= k < replace_char_spec(s, c, by).len() && replace_char_spec(s, c, by)[k] == d;
            if k < rest.len() {
                assert(rest[k] == d);
                let j = choose|j: int| 0 <= j < s.drop_last().len() && s.drop_last()[j] == d;
                assert(s[j] == d);
            } else {
                assert(tail[k - rest.len()] == d);
                assert(s[s.len() - 1] == d);
            }
        }
    }
}

/// The characters of `s` that satisfy `keep`, in order.
pub open spec fn filter_chars_spec(s: Seq<char>, keep: spec_fn(char) -> bool) -> Seq<char>
    decreases s.len(),
{
    if s.len() == 0 {
        Seq::empty()
    } else {
        filter_chars_spec(s.drop_last(), keep) + (if keep(s.last()) {
            seq![s.last()]
        } else {
            Seq::empty()
        })
    }
}

/// ASCII lower-casing of one character; every other character is kept.
pub open spec fn ascii_lower(c: char) -> char {
    if 'A' <= c && c <= 'Z' {
        ((c as u32) + 32) as char
    } else {
        c
    }
}

/// std's `eq_ignore_ascii_case`: equal after ASCII lower-casing of both sides.
pub open spec fn eq_ignore_ascii_case_spec(a: Seq<char>, b: Seq<char>) -> bool {
    &&& a.len() == b.len()
    &&& forall|i: int| 0 <= i < a.len() ==> ascii_lower(#[trigger] a[i]) == ascii_lower(b[i])
}

/// One decimal digit.
pub open spec fn digit_char(d: nat) -> char {
    if d == 0 {
        '0'
    } else if d == 1 {
        '1'
    } else if d == 2 {
        '2'
    } else if d == 3 {
        '3'
    } else if d == 4 {
        '4'
    } else if d == 5 {
        '5'
    } else if d == 6 {
        '6'
    } else if d == 7 {
        '7'
    } else if d == 8 {
        '8'
    } else {
        '9'
    }
}

/// The decimal rendering of `n`, without leading zeros (std's `{}` of an integer).
pub open spec fn decimal(n: nat) -> Seq<char>
    decreases n,
{
    if n < 10 {
        seq![digit_char(n)]
    } else {
        decimal(n / 10).push(digit_char(n % 10))
    }
}

/// One lower-case hexadecimal digit.
pub open spec fn hex_digit(d: nat) -> char {
    if d < 10 {
        digit_char(d)
    } else if d == 10 {
        'a'
    } else if d == 11 {
        'b'
    } else if d == 12 {
        'c'
    } else if d == 13 {
        'd'
    } else if d == 14 {
        'e'
    } else {
        'f'
    }
}

/// Two lower-case hexadecimal digits per byte, most significant first.
pub open spec fn hex_bytes(b: Seq<u8>) -> Seq<char>
    decreases b.len(),
{
    if b.len() == 0 {
        Seq::empty()
    } else {
        hex_bytes(b.drop_last()) + seq![
            hex_digit((b.last() / 16) as nat),
            hex_digit((b.last() % 16) as nat),
        ]
    }
}

/// A lower-case hexadecimal digit: `0`-`9` or `a`-`f`.
pub open spec fn is_lower_hex(c: char) -> bool {
    ('0' <= c && c <= '9') || ('a' <= c && c <= 'f')
}

/// The hex rendering has two digits per byte, each a lower-case hex digit.
pub proof fn lemma_hex_bytes(b: Seq<u8>)
    ensures
        hex_bytes(b).len() == 2 * b.len(),
        forall|i: int| 0 <= i < hex_bytes(b).len() ==> is_lower_hex(#[trigger] hex_bytes(b)[i]),
    decreases b.len(),
{
    if b.len() > 0 {
        lemma_hex_bytes(b.drop_last());
        let h = hex_bytes(b);
        let p = hex_bytes(b.drop_last());
        assert forall|i: int| 0 <= i < h.len() implies is_lower_hex(#[trigger] h[i]) by {
            if i < p.len() {
                assert(h[i] == p[i]);
            }
        }
    }
}

/// The text between byte offsets `start` and `end` of `t`'s UTF-8 encoding.
pub open spec fn byte_range(t: Seq<char>, start: int, end: int) -> Seq<char> {
    decode_utf8(encode_utf8(t).subrange(start, end))
}

/// The UTF-8 length of `t` in bytes (std's `str::len`).
pub open spec fn byte_len(t: Seq<char>) -> int {
    encode_utf8(t).len() as int
}

/// The number of leading white-space characters of `s`.
pub open spec fn leading_ws(s: Seq<char>) -> nat
    decreases s.len(),
{
    if s.len() == 0 {
        0
    } else if is_white_space(s[0]) {
        1 + leading_ws(s.drop_first())
    } else {
        0
    }
}

/// `s` without its leading and trailing white space (std's `str::trim`).
pub open spec fn trim_spec(s: Seq<char>) -> Seq<char> {
    let rest = s.skip(leading_ws(s) as int);
    rest.take(rest.len() - leading_ws(rest.reverse()))
}

/// `leading_ws` is the length of the maximal white-space prefix.
pub proof fn lemma_leading_ws(s: Seq<char>, k: int)
    requires
        0 <= k <= s.len(),
        forall|j: int| 0 <= j < k ==> is_white_space(#[trigger] s[j]),
        k == s.len() || !is_white_space(s[k]),
    ensures
        leading_ws(s) == k,
    decreases k,
{
    if k > 0 {
        lemma_leading_ws(s.drop_first(), k - 1);
    }
}

/// Lexicographic order of byte strings (a proper prefix comes first).
pub open spec fn bytes_lt(a: Seq<u8>, b: Seq<u8>) -> bool
    decreases a.len(),
{
    if a.len() == 0 {
        b.len() > 0
    } else if b.len() == 0 {
        false
    } else if a[0] != b[0] {
        a[0] < b[0]
    } else {
        bytes_lt(a.drop_first(), b.drop_first())
    }
}

/// The order of std's `str`/`String` comparison: byte-wise lexicographic on UTF-8.
pub open spec fn text_lt(a: Seq<char>, b: Seq<char>) -> bool {
    bytes_lt(encode_utf8(a), encode_utf8(b))
}

pub proof fn lemma_bytes_lt_irreflexive(a: Seq<u8>)
    ensures
        !bytes_lt(a, a),
    decreases a.len(),
{
    if a.len() > 0 {
        lemma_bytes_lt_irreflexive(a.drop_first());
    }
}

pub proof fn lemma_bytes_lt_transitive(a: Seq<u8>, b: Seq<u8>, c: Seq<u8>)
    requires
        bytes_lt(a, b),
        bytes_lt(b, c),
    ensures
        bytes_lt(a, c),
    decreases a.len(),
{
    if a.len() > 0 && b.len() > 0 && c.len() > 0 && a[0] == b[0] && b[0] == c[0] {
        lemma_bytes_lt_transitive(a.drop_first(), b.drop_first(), c.drop_first());
    }
}

pub proof fn lemma_bytes_lt_total(a: Seq<u8>, b: Seq<u8>)
    requires
        a != b,
    ensures
        bytes_lt(a, b) || bytes_lt(b, a),
    decreases a.len(),
{
    if a.len() > 0 && b.len() > 0 && a[0] == b[0] {
        if a.drop_first() == b.drop_first() {
            assert(a =~= seq![a[0]] + a.drop_first());
            assert(b =~= seq![b[0]] + b.drop_first());
        }
        lemma_bytes_lt_total(a.drop_first(), b.drop_first());
    } else if a.len() == 0 && b.len() == 0 {
        assert(a =~= b);
    }
}

pub proof fn lemma_bytes_lt_asymmetric(a: Seq<u8>, b: Seq<u8>)
    requires
        bytes_lt(a, b),
    ensures
        !bytes_lt(b, a),
    decreases a.len(),
{
    if a.len() > 0 && b.len() > 0 && a[0] == b[0] {
        lemma_bytes_lt_asymmetric(a.drop_first(), b.drop_first());
    }
}

/// `text_lt` is a strict total order on texts.
pub proof fn lemma_text_order(a: Seq<char>, b: Seq<char>, c: Seq<char>)
    ensures
        !text_lt(a, a),
        text_lt(a, b) ==> !text_lt(b, a),
        text_lt(a, b) && text_lt(b, c) ==> text_lt(a, c),
        a != b ==> text_lt(a, b) || text_lt(b, a),
{
    lemma_bytes_lt_irreflexive(encode_utf8(a));
    if text_lt(a, b) {
        lemma_bytes_lt_asymmetric(encode_utf8(a), encode_utf8(b));
    }
    if text_lt(a, b) && text_lt(b, c) {
        lemma_bytes_lt_transitive(encode_utf8(a), encode_utf8(b), encode_utf8(c));
    }
    if a != b {
        assert(decode_utf8(encode_utf8(a)) == a);
        assert(decode_utf8(encode_utf8(b)) == b);
        lemma_bytes_lt_total(encode_utf8(a), encode_utf8(b));
    }
}

/// Whether `a` sorts before `b` (std's `<` on strings).
pub fn text_less(a: &str, b: &str) -> (r: bool)
    ensures
        r == text_lt(a@, b@),
{
    let x = a.as_bytes();
    let y = b.as_bytes();
    let ghost xs = x@;
    let ghost ys = y@;
    let mut i: usize = 0;
    assert(xs.skip(0) =~= xs);
    assert(ys.skip(0) =~= ys);
    while i < x.len() && i < y.len()
        invariant
            xs == x@,
            ys == y@,
            xs == encode_utf8(a@),
            ys == encode_utf8(b@),
            i <= xs.len(),
            i <= ys.len(),
            bytes_lt(xs, ys) == bytes_lt(xs.skip(i as int), ys.skip(i as int)),
        decreases xs.len() - i,
    {
        if x[i] != y[i] {
            assert(xs.skip(i as int)[0] == x[i as int]);
            assert(ys.skip(i as int)[0] == y[i as int]);
            return x[i] < y[i];
        }
        assert(xs.skip(i as int).drop_first() =~= xs.skip(i + 1));
        assert(ys.skip(i as int).drop_first() =~= ys.skip(i + 1));
        i = i + 1;
    }
    i < y.len()
}

// ---------------------------------------------------------------------------
// Names for std results that this library does not restate
// ---------------------------------------------------------------------------

/// Whether `c` has the Unicode `White_Space` property, which is what
/// `char::is_whitespace` (and so `str::trim`) tests.
pub open spec fn is_white_space(c: char) -> bool {
    ('\t' <= c && c <= '\r') || c == ' ' || c == '\u{85}' || c == '\u{a0}' || c == '\u{1680}' || (
    '\u{2000}' <= c && c <= '\u{200a}') || c == '\u{2028}' || c == '\u{2029}' || c == '\u{202f}' || c
        == '\u{205f}' || c == '\u{3000}'
}

/// std's `Debug` rendering of a string: quoted, with escapes.
pub uninterp spec fn debug_quoted(s: Seq<char>) -> Seq<char>;

/// std's full Unicode lower-casing of a string.
pub uninterp spec fn unicode_lower(s: Seq<char>) -> Seq<char>;

/// Whether `c` is white space (see [`is_white_space`]).
pub fn char_is_whitespace(c: char) -> (r: bool)
    ensures
        r == is_white_space(c),
{
    ('\t' <= c && c <= '\r') || c == ' ' || c == '\u{85}' || c == '\u{a0}' || c == '\u{1680}' || (
    '\u{2000}' <= c && c <= '\u{200a}') || c == '\u{2028}' || c == '\u{2029}' || c == '\u{202f}' || c
        == '\u{205f}' || c == '\u{3000}'
}

/// Calls std's `Debug` formatting of a `str` (`format!("{:?}", s)`); the result
/// is named, not restated.
#[verifier::external_body]
pub(crate) fn debug_text(s: &str) -> (r: String)
    ensures
        r@ == debug_quoted(s@),
{
    format!("{:?}", s)
}

/// Calls `str::to_lowercase`; the result is named, not restated.
#[verifier::external_body]
pub(crate) fn to_lowercase_text(s: &str) -> (r: String)
    ensures
        r@ == unicode_lower(s@),
{
    s.to_lowercase()
}

/// Calls `String::push`: the character is appended at the end.
#[verifier::external_body]
pub(crate) fn push_char(s: &mut String, c: char)
    ensures
        final(s)@ == old(s)@.push(c),
{
    s.push(c)
}

// ---------------------------------------------------------------------------
// Verified operations
// ---------------------------------------------------------------------------

/// The characters of `s`, in order.
pub fn chars_of(s: &str) -> (v: Vec<char>)
    ensures
        v@ == s@,
{
    let mut v: Vec<char> = Vec::new();
    for c in it: s.chars()
        invariant
            v@ == it.seq().take(it.index() as int),
            it.seq() == s@,
    {
        v.push(c);
    }
    v
}

/// A string holding exactly the characters `v`.
pub fn from_chars(v: &[char]) -> (r: String)
    ensures
        r@ == v@,
{
    let mut r = String::new();
    let n = v.len();
    for i in 0..n
        invariant
            n == v@.len(),
            r@ == v@.take(i as int),
    {
        push_char(&mut r, v[i]);
        assert(v@.take(i as int).push(v@[i as int]) =~= v@.take(i + 1));
    }
    assert(v@.take(n as int) =~= v@);
    r
}

/// An owned copy of `s`.
pub fn owned(s: &str) -> (r: String)
    ensures
        r@ == s@,
{
    s.to_owned()
}

/// `a` followed by `b`.
pub fn cat(a: &str, b: &str) -> (r: String)
    ensures
        r@ == a@ + b@,
{
    let mut r = a.to_owned();
    r.append(b);
    r
}

/// Owned copies of the texts `v`, in order.
pub fn copy_texts(v: &[String]) -> (r: Vec<String>)
    ensures
        r.deep_view() == v.deep_view(),
{
    let mut r: Vec<String> = Vec::new();
    let n = v.len();
    for i in 0..n
        invariant
            n == v@.len(),
            r.deep_view() == v.deep_view().take(i as int),
    {
        let ghost before = r.deep_view();
        r.push(owned(v[i].as_str()));
        assert(v.deep_view()[i as int] == v@[i as int]@);
        assert(r.deep_view() =~= before.push(v.deep_view()[i as int]));
        assert(v.deep_view().take(i + 1) =~= v.deep_view().take(i as int).push(v.deep_view()[i as int]));
    }
    assert(v.deep_view().take(n as int) =~= v.deep_view());
    r
}

/// Whether two texts are equal, character by character.
pub fn text_eq(a: &str, b: &str) -> (r: bool)
    ensures
        r == (a@ == b@),
{
    let va = chars_of(a);
    let vb = chars_of(b);
    if va.len() != vb.len() {
        return false;
    }
    let n = va.len();
    for i in 0..n
        invariant
            n == va@.len(),
            n == vb@.len(),
            va@ == a@,
            vb@ == b@,
            forall|j: int| 0 <= j < i ==> va@[j] == vb@[j],
    {
        if va[i] != vb[i] {
            return false;
        }
    }
    assert(va@ =~= vb@);
    true
}

/// ASCII lower-casing of one character.
pub fn lower_ascii_char(c: char) -> (r: char)
    ensures
        r == ascii_lower(c),
{
    if 'A' <= c && c <= 'Z' {
        let u = (c as u32) + 32;
        assert(u <= 0x7f);
        let b = u as u8;
        b as char
    } else {
        c
    }
}

/// std's `eq_ignore_ascii_case`.
pub fn eq_ignore_ascii_case(a: &str, b: &str) -> (r: bool)
    ensures
        r == eq_ignore_ascii_case_spec(a@, b@),
{
    let va = chars_of(a);
    let vb = chars_of(b);
    if va.len() != vb.len() {
        return false;
    }
    let n = va.len();
    for i in 0..n
        invariant
            n == va@.len(),
            n == vb@.len(),
            va@ == a@,
            vb@ == b@,
            forall|j: int| 0 <= j < i ==> ascii_lower(#[trigger] va@[j]) == ascii_lower(vb@[j]),
    {
        if lower_ascii_char(va[i]) != lower_ascii_char(vb[i]) {
            return false;
        }
    }
    true
}

/// `parts` joined with `sep` (std's `[String]::join`).
pub fn join(parts: &[String], sep: &str) -> (r: String)
    ensures
        r@ == join_spec(parts.deep_view(), sep@),
{
    let ghost views = parts.deep_view();
    let mut r = String::new();
    let n = parts.len();
    for i in 0..n
        invariant
            n == parts@.len(),
            views == parts.deep_view(),
            r@ == join_spec(views.take(i as int), sep@),
    {
        assert(views.take(i + 1).drop_last() =~= views.take(i as int));
        if i != 0 {
            r.append(sep);
        } else {
            assert(views.take(0) =~= Seq::<Seq<char>>::empty());
        }
        r.append(parts[i].as_str());
    }
    assert(views.take(n as int) =~= views);
    r
}

/// Replaces every `c` in `s` by `by`.
pub fn replace_char(s: &str, c: char, by: &str) -> (r: String)
    ensures
        r@ == replace_char_spec(s@, c, by@),
{
    let v = chars_of(s);
    let mut r = String::new();
    let n = v.len();
    for i in 0..n
        invariant
            n == v@.len(),
            v@ == s@,
            r@ == replace_char_spec(v@.take(i as int), c, by@),
    {
        assert(v@.take(i + 1).drop_last() =~= v@.take(i as int));
        if v[i] == c {
            r.append(by);
        } else {
            push_char(&mut r, v[i]);
        }
    }
    assert(v@.take(n as int) =~= v@);
    r
}

/// The decimal rendering of `n`.
pub fn decimal_string(n: usize) -> (r: String)
    ensures
        r@ == decimal(n as nat),
    decreases n,
{
    if n < 10 {
        let mut r = String::new();
        push_char(&mut r, digit(n));
        r
    } else {
        let mut r = decimal_string(n / 10);
        push_char(&mut r, digit(n % 10));
        r
    }
}

/// One decimal digit.
pub fn digit(d: usize) -> (c: char)
    requires
        d < 10,
    ensures
        c == digit_char(d as nat),
{
    if d == 0 {
        '0'
    } else if d == 1 {
        '1'
    } else if d == 2 {
        '2'
    } else if d == 3 {
        '3'
    } else if d == 4 {
        '4'
    } else if d == 5 {
        '5'
    } else if d == 6 {
        '6'
    } else if d == 7 {
        '7'
    } else if d == 8 {
        '8'
    } else {
        '9'
    }
}

/// One lower-case hexadecimal digit.
pub fn hex_digit_char(d: u8) -> (c: char)
    requires
        d < 16,
    ensures
        c == hex_digit(d as nat),
{
    if d < 10 {
        digit(d as usize)
    } else if d == 10 {
        'a'
    } else if d == 11 {
        'b'
    } else if d == 12 {
        'c'
    } else if d == 13 {
        'd'
    } else if d == 14 {
        'e'
    } else {
        'f'
    }
}

/// Lower-case hexadecimal rendering of bytes, two digits each.
pub fn hex_string(b: &[u8]) -> (r: String)
    ensures
        r@ == hex_bytes(b@),
{
    let mut r = String::new();
    let n = b.len();
    for i in 0..n
        invariant
            n == b@.len(),
            r@ == hex_bytes(b@.take(i as int)),
    {
        assert(b@.take(i + 1).drop_last() =~= b@.take(i as int));
        push_char(&mut r, hex_digit_char(b[i] / 16));
        push_char(&mut r, hex_digit_char(b[i] % 16));
    }
    assert(b@.take(n as int) =~= b@);
    r
}

/// The number of leading white-space characters of `v`.
fn leading_white(v: &Vec<char>) -> (k: usize)
    ensures
        k as nat == leading_ws(v@),
        k <= v@.len(),
{
    let n = v.len();
    let mut k: usize = 0;
    while k < n
        invariant
            n == v@.len(),
            k <= n,
            forall|j: int| 0 <= j < k ==> is_white_space(#[trigger] v@[j]),
        decreases n - k,
    {
        if !char_is_whitespace(v[k]) {
            proof {
                lemma_leading_ws(v@, k as int);
            }
            return k;
        }
        k = k + 1;
    }
    proof {
        lemma_leading_ws(v@, k as int);
    }
    k
}

/// `s` without leading and trailing white space (std's `str::trim`).
pub fn trim(s: &str) -> (r: String)
    ensures
        r@ == trim_spec(s@),
{
    let v = chars_of(s);
    let front = leading_white(&v);
    let mut rest: Vec<char> = Vec::new();
    let n = v.len();
    let mut i = front;
    while i < n
        invariant
            n == v@.len(),
            front <= i <= n,
            rest@ == v@.subrange(front as int, i as int),
        decreases n - i,
    {
        rest.push(v[i]);
        i = i + 1;
    }
    assert(rest@ =~= v@.skip(front as int));
    let mut rev: Vec<char> = Vec::new();
    let m = rest.len();
    let mut j = m;
    while j > 0
        invariant
            m == rest@.len(),
            j <= m,
            rev@ =~= rest@.reverse().take((m - j) as int),
        decreases j,
    {
        j = j - 1;
        rev.push(rest[j]);
    }
    assert(rev@ =~= rest@.reverse());
    let back = leading_white(&rev);
    let keep = m - back;
    let mut out: Vec<char> = Vec::new();
    let mut k: usize = 0;
    while k < keep
        invariant
            keep <= m == rest@.len(),
            k <= keep,
            out@ == rest@.take(k as int),
        decreases keep - k,
    {
        out.push(rest[k]);
        k = k + 1;
    }
    from_chars(&out)
}

/// The text of `t` between byte offsets `start` and `end`.
pub fn byte_slice(t: &str, start: usize, end: usize) -> (r: String)
    requires
        start <= end <= byte_len(t@),
        is_char_boundary(encode_utf8(t@), start as int),
        is_char_boundary(encode_utf8(t@), end as int),
    ensures
        r@ == byte_range(t@, start as int, end as int),
        encode_utf8(r@) == encode_utf8(t@).subrange(start as int, end as int),
{
    let (head, _) = t.split_at(end);
    proof {
        let bytes = encode_utf8(t@);
        let hb = head.spec_bytes();
        assert(hb =~= bytes.subrange(0, end as int));
        assert(valid_utf8(hb));
        if start < end {
            assert(hb[start as int] == bytes[start as int]);
            is_char_boundary_iff_not_is_continuation_byte(bytes, start as int);
            is_char_boundary_iff_not_is_continuation_byte(hb, start as int);
        } else {
            is_char_boundary_start_end_of_seq(hb);
        }
    }
    let (_, mid) = head.split_at(start);
    let r = mid.to_owned();
    proof {
        assert(mid.spec_bytes() =~= encode_utf8(t@).subrange(start as int, end as int));
    }
    r
}

} // verus!
