//! Character-sequence utilities shared by the tools.
//!
//! Text is handled as sequences of `char`; byte offsets, where a tool reports
//! them, are the lengths of the UTF-8 encodings of the preceding characters.

use vstd::prelude::*;
use vstd::utf8::*;
use vstd::relations::sorted_by;

verus! {

// ── Specifications ──────────────────────────────────────────────────────────

/// Unicode `White_Space`: the characters for which `char::is_whitespace` holds.
pub open spec fn is_ws(c: char) -> bool {
    let u = c as u32;
    ||| 0x09 <= u <= 0x0D
    ||| u == 0x20
    ||| u == 0x85
    ||| u == 0xA0
    ||| u == 0x1680
    ||| 0x2000 <= u <= 0x200A
    ||| u == 0x2028
    ||| u == 0x2029
    ||| u == 0x202F
    ||| u == 0x205F
    ||| u == 0x3000
}

/// Whitespace that does not end a line.
pub open spec fn is_line_ws(c: char) -> bool {
    is_ws(c) && c != '\n' && c != '\r'
}

/// Number of UTF-8 bytes of the characters `s`.
pub open spec fn byte_len(s: Seq<char>) -> nat {
    encode_utf8(s).len()
}

/// Byte offset of character index `i` in `s`.
pub open spec fn byte_offset(s: Seq<char>, i: int) -> nat {
    byte_len(s.take(i))
}

/// Number of UTF-8 bytes of one character.
pub open spec fn char_width(c: char) -> nat {
    let u = c as u32;
    if u <= 0x7F {
        1
    } else if u <= 0x7FF {
        2
    } else if u <= 0xFFFF {
        3
    } else {
        4
    }
}

/// `n` occurs in `h` starting at character index `i`.
pub open spec fn matches_at(h: Seq<char>, n: Seq<char>, i: int) -> bool {
    0 <= i && i + n.len() <= h.len() && h.subrange(i, i + n.len()) == n
}

/// `s` without its trailing whitespace (`str::trim_end`).
pub open spec fn trim_end_seq(s: Seq<char>) -> Seq<char>
    decreases s.len(),
{
    if s.len() > 0 && is_ws(s.last()) {
        trim_end_seq(s.drop_last())
    } else {
        s
    }
}

/// `s` without its leading whitespace (`str::trim_start`).
pub open spec fn trim_start_seq(s: Seq<char>) -> Seq<char>
    decreases s.len(),
{
    if s.len() > 0 && is_ws(s[0]) {
        trim_start_seq(s.drop_first())
    } else {
        s
    }
}

/// `s` without leading and trailing whitespace (`str::trim`).
pub open spec fn trim_seq(s: Seq<char>) -> Seq<char> {
    trim_start_seq(trim_end_seq(s))
}

/// The decimal digit character for `d < 10`.
pub open spec fn digit_char(d: nat) -> char {
    ((48 + d) as u32) as char
}

/// Decimal representation of `n`.
pub open spec fn dec(n: nat) -> Seq<char>
    decreases n,
{
    if n < 10 {
        seq![digit_char(n)]
    } else {
        dec(n / 10).push(digit_char(n % 10))
    }
}

/// Decimal representation of a signed number.
pub open spec fn dec_signed(n: int) -> Seq<char> {
    if n < 0 {
        seq!['-'] + dec((-n) as nat)
    } else {
        dec(n as nat)
    }
}

// ── Lemmas ──────────────────────────────────────────────────────────────────

/// Appending a character adds its encoding.
pub proof fn lemma_encode_push(a: Seq<char>, c: char)
    ensures
        encode_utf8(a.push(c)) == encode_utf8(a) + encode_scalar(c as u32),
    decreases a.len(),
{
    if a.len() == 0 {
        assert(a.push(c).drop_first() =~= Seq::<char>::empty());
        assert(encode_utf8(Seq::<char>::empty()) =~= Seq::<u8>::empty());
        assert(encode_utf8(a.push(c)) == encode_scalar(a.push(c)[0] as u32) + encode_utf8(
            a.push(c).drop_first(),
        ));
        assert(encode_utf8(a.push(c)) =~= encode_scalar(c as u32));
        assert(encode_utf8(a) =~= Seq::<u8>::empty());
    } else {
        assert(a.push(c).drop_first() =~= a.drop_first().push(c));
        lemma_encode_push(a.drop_first(), c);
        assert(encode_utf8(a.push(c)) == encode_scalar(a.push(c)[0] as u32) + encode_utf8(
            a.push(c).drop_first(),
        ));
        assert(encode_utf8(a.push(c)) =~= encode_scalar(a[0] as u32) + (encode_utf8(a.drop_first())
            + encode_scalar(c as u32)));
    }
}

/// The encoding of a concatenation is the concatenation of the encodings.
pub proof fn lemma_encode_concat(a: Seq<char>, b: Seq<char>)
    ensures
        encode_utf8(a + b) == encode_utf8(a) + encode_utf8(b),
    decreases b.len(),
{
    if b.len() == 0 {
        assert(a + b =~= a);
        assert(encode_utf8(b) =~= Seq::<u8>::empty());
        assert(encode_utf8(a) + encode_utf8(b) =~= encode_utf8(a));
    } else {
        let b0 = b.drop_last();
        assert(a + b =~= (a + b0).push(b.last()));
        assert(b =~= b0.push(b.last()));
        lemma_encode_concat(a, b0);
        lemma_encode_push(a + b0, b.last());
        lemma_encode_push(b0, b.last());
        assert(encode_utf8(a + b) =~= encode_utf8(a) + encode_utf8(b));
    }
}

/// A matched occurrence spans exactly the bytes of the needle.
pub proof fn lemma_match_bytes(h: Seq<char>, n: Seq<char>, i: int)
    requires
        matches_at(h, n, i),
    ensures
        byte_offset(h, i + n.len()) == byte_offset(h, i) + byte_len(n),
{
    assert(h.take(i + n.len()) =~= h.take(i) + n);
    lemma_encode_concat(h.take(i), n);
}

/// A text has at least as many bytes as characters.
pub proof fn lemma_chars_le_bytes(s: Seq<char>)
    ensures
        s.len() <= byte_len(s),
    decreases s.len(),
{
    if s.len() > 0 {
        lemma_chars_le_bytes(s.drop_first());
        assert(encode_utf8(s) == encode_scalar(s[0] as u32) + encode_utf8(s.drop_first()));
    }
}

/// The byte offset at the end of the text is the byte length of the text.
pub proof fn lemma_byte_offset_end(s: Seq<char>)
    ensures
        byte_offset(s, s.len() as int) == byte_len(s),
{
    assert(s.take(s.len() as int) =~= s);
}

/// The encoding of one character has `char_width` bytes.
pub proof fn lemma_scalar_width(c: char)
    ensures
        encode_scalar(c as u32).len() == char_width(c),
{
    broadcast use vstd::utf8::char_is_scalar;
    assert(is_scalar(c as u32));
}

/// Byte offsets advance by the width of the character passed.
pub proof fn lemma_byte_offset_step(s: Seq<char>, i: int)
    requires
        0 <= i < s.len(),
    ensures
        byte_offset(s, i + 1) == byte_offset(s, i) + char_width(s[i]),
{
    assert(s.take(i + 1) =~= s.take(i).push(s[i]));
    lemma_encode_push(s.take(i), s[i]);
    lemma_scalar_width(s[i]);
}

/// Byte offsets grow strictly with the character index.
pub proof fn lemma_byte_offset_mono(s: Seq<char>, i: int, j: int)
    requires
        0 <= i < j <= s.len(),
    ensures
        byte_offset(s, i) < byte_offset(s, j),
    decreases j - i,
{
    lemma_byte_offset_step(s, j - 1);
    if i < j - 1 {
        lemma_byte_offset_mono(s, i, j - 1);
    }
}

/// Characters of `s` that are trimmed from its end are a whitespace run.
pub proof fn lemma_trim_end(s: Seq<char>, e: int)
    requires
        0 <= e <= s.len(),
        forall|k: int| e <= k < s.len() ==> is_ws(s[k]),
        e == 0 || !is_ws(s[e - 1]),
    ensures
        trim_end_seq(s) == s.take(e),
    decreases s.len(),
{
    if s.len() == e {
        assert(s.take(e) =~= s);
    } else {
        assert(s.drop_last().take(e) =~= s.take(e));
        lemma_trim_end(s.drop_last(), e);
    }
}

/// Characters of `s` that are trimmed from its start are a whitespace run.
pub proof fn lemma_trim_start(s: Seq<char>, b: int)
    requires
        0 <= b <= s.len(),
        forall|k: int| 0 <= k < b ==> is_ws(s[k]),
        b == s.len() || !is_ws(s[b]),
    ensures
        trim_start_seq(s) == s.skip(b),
    decreases b,
{
    if b == 0 {
        assert(s.skip(0) =~= s);
    } else {
        assert(s.drop_first().skip(b - 1) =~= s.skip(b));
        lemma_trim_start(s.drop_first(), b - 1);
    }
}

/// Length of the run of line whitespace starting at `i`.
pub open spec fn line_ws_run(h: Seq<char>, i: int) -> nat
    decreases h.len() - i,
{
    if 0 <= i < h.len() && is_line_ws(h[i]) {
        1 + line_ws_run(h, i + 1)
    } else {
        0
    }
}

/// A whitespace run stays inside the text.
pub proof fn lemma_line_ws_run_bound(h: Seq<char>, i: int)
    requires
        0 <= i <= h.len(),
    ensures
        i + line_ws_run(h, i) <= h.len(),
    decreases h.len() - i,
{
    if i < h.len() && is_line_ws(h[i]) {
        lemma_line_ws_run_bound(h, i + 1);
    }
}

/// Index `i` holds `\r` immediately followed by `\n`.
pub open spec fn crlf_at(s: Seq<char>, i: int) -> bool {
    0 <= i && i + 1 < s.len() && s[i] == '\r' && s[i + 1] == '\n'
}

/// Some index holds `\r` immediately followed by `\n`.
pub open spec fn has_crlf(s: Seq<char>) -> bool {
    exists|i: int| #[trigger] crlf_at(s, i)
}

/// Every `\r\n` replaced by `\n`, scanning left to right.
pub open spec fn crlf_to_lf(s: Seq<char>) -> Seq<char>
    decreases s.len(),
{
    if s.len() == 0 {
        Seq::empty()
    } else if s.len() >= 2 && s[0] == '\r' && s[1] == '\n' {
        seq!['\n'] + crlf_to_lf(s.skip(2))
    } else {
        seq![s[0]] + crlf_to_lf(s.skip(1))
    }
}

/// Every `\n` replaced by `\r\n`.
pub open spec fn lf_to_crlf(s: Seq<char>) -> Seq<char>
    decreases s.len(),
{
    if s.len() == 0 {
        Seq::empty()
    } else if s[0] == '\n' {
        seq!['\r', '\n'] + lf_to_crlf(s.skip(1))
    } else {
        seq![s[0]] + lf_to_crlf(s.skip(1))
    }
}

// ── Executable helpers ──────────────────────────────────────────────────────

/// Appends one character to a `String` (std's `String::push`).
#[verifier::external_body]
pub(crate) fn push_char(s: &mut String, c: char)
    ensures
        final(s)@ == old(s)@.push(c),
{
    s.push(c);
}

/// std's `Debug` form of a string: quoted, with special characters escaped.
pub uninterp spec fn debug_quoted(s: Seq<char>) -> Seq<char>;

/// `format!("{:?}", s)`: std's `Debug` form of a string.
#[verifier::external_body]
pub(crate) fn quoted_debug(s: &str) -> (r: String)
    ensures
        r@ == debug_quoted(s@),
{
    format!("{:?}", s)
}

/// Appends the characters `cs` to `s`.
pub(crate) fn push_chars(s: &mut String, cs: &[char])
    ensures
        final(s)@ == old(s)@ + cs@,
{
    let ghost s0 = s@;
    let mut i: usize = 0;
    while i < cs.len()
        invariant
            i <= cs@.len(),
            s@ == s0 + cs@.take(i as int),
        decreases cs@.len() - i,
    {
        push_char(s, cs[i]);
        i = i + 1;
        assert(cs@.take(i as int) == cs@.take(i - 1).push(cs@[i - 1]));
    }
    assert(cs@.take(cs@.len() as int) == cs@);
}

/// Appends the characters of `t` to `s`.
pub(crate) fn push_str(s: &mut String, t: &str)
    ensures
        final(s)@ == old(s)@ + t@,
{
    let ghost s0 = s@;
    for c in it: t.chars()
        invariant
            s@ == s0 + it.seq().take(it.index() as int),
            it.seq() == t@,
    {
        push_char(s, c);
    }
}

/// The characters of `s`, in order.
pub fn chars_of(s: &str) -> (v: Vec<char>)
    ensures
        v@ == s@,
{
    let mut v: Vec<char> = Vec::new();
    for c in it: s.chars()
        invariant
            v@ == it.seq().take(it.index() as int),
            it.seq() == s@,
    {
        v.push(c);
    }
    v
}

/// A `String` holding exactly the characters `cs`.
pub fn string_of(cs: &[char]) -> (s: String)
    ensures
        s@ == cs@,
{
    let mut s = String::new();
    push_chars(&mut s, cs);
    s
}

/// `char::is_whitespace`.
pub fn is_whitespace(c: char) -> (b: bool)
    ensures
        b == is_ws(c),
{
    let u = c as u32;
    (0x09 <= u && u <= 0x0D) || u == 0x20 || u == 0x85 || u == 0xA0 || u == 0x1680 || (0x2000
        <= u && u <= 0x200A) || u == 0x2028 || u == 0x2029 || u == 0x202F || u == 0x205F || u
        == 0x3000
}

/// Number of UTF-8 bytes of `c` (`char::len_utf8`).
pub fn utf8_width(c: char) -> (n: usize)
    ensures
        n == char_width(c),
        1 <= n <= 4,
{
    let u = c as u32;
    if u <= 0x7F {
        1
    } else if u <= 0x7FF {
        2
    } else if u <= 0xFFFF {
        3
    } else {
        4
    }
}

/// The decimal digit character for `d`.
fn digit(d: u64) -> (c: char)
    requires
        d < 10,
    ensures
        c == digit_char(d as nat),
{
    let b: u8 = (48 + d) as u8;
    b as char
}

/// Appends the decimal representation of `n`.
pub(crate) fn push_dec(s: &mut String, n: u64)
    ensures
        final(s)@ == old(s)@ + dec(n as nat),
    decreases n,
{
    if n >= 10 {
        push_dec(s, n / 10);
    }
    push_char(s, digit(n % 10));
}

/// Appends the decimal representation of a signed `n`.
pub(crate) fn push_dec_signed(s: &mut String, n: i64)
    ensures
        final(s)@ == old(s)@ + dec_signed(n as int),
{
    if n < 0 {
        push_char(s, '-');
        let m: u64 = if n == i64::MIN {
            9223372036854775808u64
        } else {
            (-n) as u64
        };
        push_dec(s, m);
        assert(final(s)@ == old(s)@ + (seq!['-'] + dec((-n) as nat)));
    } else {
        push_dec(s, n as u64);
    }
}

/// `n` occurs in `h` at character index `i`.
pub fn occurs_at(h: &[char], n: &[char], i: usize) -> (b: bool)
    ensures
        b == matches_at(h@, n@, i as int),
{
    if i > h.len() || n.len() > h.len() - i {
        return false;
    }
    let mut k: usize = 0;
    while k < n.len()
        invariant
            i + n@.len() <= h@.len(),
            h@.len() == h.len(),
            k <= n@.len(),
            forall|j: int| 0 <= j < k ==> h@[i + j] == n@[j],
        decreases n@.len() - k,
    {
        if h[i + k] != n[k] {
            assert(h@.subrange(i as int, i + n@.len())[k as int] != n@[k as int]);
            return false;
        }
        k = k + 1;
    }
    assert(h@.subrange(i as int, i + n@.len()) =~= n@);
    true
}

/// Byte offsets of every character index `0..=h.len()`.
pub fn byte_offset_table(h: &[char], total: usize) -> (r: Vec<usize>)
    requires
        total == byte_len(h@),
    ensures
        r@.len() == h@.len() + 1,
        forall|i: int| 0 <= i <= h@.len() ==> r@[i] == byte_offset(h@, i),
{
    let mut r: Vec<usize> = Vec::new();
    let mut b: usize = 0;
    let mut i: usize = 0;
    proof {
        assert(h@.take(0) =~= Seq::<char>::empty());
        assert(encode_utf8(Seq::<char>::empty()) =~= Seq::<u8>::empty());
        lemma_byte_offset_end(h@);
    }
    r.push(b);
    while i < h.len()
        invariant
            i <= h@.len(),
            h@.len() == h.len(),
            total == byte_len(h@),
            b == byte_offset(h@, i as int),
            r@.len() == i + 1,
            forall|k: int| 0 <= k <= i ==> r@[k] == byte_offset(h@, k),
        decreases h@.len() - i,
    {
        proof {
            lemma_byte_offset_step(h@, i as int);
            lemma_byte_offset_end(h@);
            if i + 1 < h@.len() {
                lemma_byte_offset_mono(h@, i + 1, h@.len() as int);
            }
        }
        b = b + utf8_width(h[i]);
        i = i + 1;
        r.push(b);
    }
    r
}

/// A copy of `h[i..j]`.
pub fn copy_range(h: &[char], i: usize, j: usize) -> (r: Vec<char>)
    requires
        i <= j <= h@.len(),
    ensures
        r@ == h@.subrange(i as int, j as int),
{
    let mut r: Vec<char> = Vec::new();
    let mut k: usize = i;
    while k < j
        invariant
            i <= k <= j <= h@.len(),
            r@ == h@.subrange(i as int, k as int),
        decreases j - k,
    {
        r.push(h[k]);
        k = k + 1;
        assert(r@ =~= h@.subrange(i as int, k as int));
    }
    r
}

/// `s` without trailing whitespace.
pub fn trim_end_chars(s: &[char]) -> (r: Vec<char>)
    ensures
        r@ == trim_end_seq(s@),
{
    let mut e: usize = s.len();
    while e > 0 && is_whitespace(s[e - 1])
        invariant
            e <= s@.len(),
            forall|k: int| e <= k < s@.len() ==> is_ws(s@[k]),
        decreases e,
    {
        e = e - 1;
    }
    proof {
        lemma_trim_end(s@, e as int);
    }
    copy_range(s, 0, e)
}

/// `s` without leading whitespace.
pub fn trim_start_chars(s: &[char]) -> (r: Vec<char>)
    ensures
        r@ == trim_start_seq(s@),
{
    let mut b: usize = 0;
    while b < s.len() && is_whitespace(s[b])
        invariant
            b <= s@.len(),
            forall|k: int| 0 <= k < b ==> is_ws(s@[k]),
        decreases s@.len() - b,
    {
        b = b + 1;
    }
    proof {
        lemma_trim_start(s@, b as int);
        assert(s@.subrange(b as int, s@.len() as int) =~= s@.skip(b as int));
    }
    copy_range(s, b, s.len())
}

/// `s` without leading or trailing whitespace.
pub fn trim_chars(s: &[char]) -> (r: Vec<char>)
    ensures
        r@ == trim_seq(s@),
{
    let e = trim_end_chars(s);
    trim_start_chars(&e)
}

/// Length of the run of line whitespace at `i`.
pub fn line_ws_run_at(h: &[char], i: usize) -> (n: usize)
    requires
        i <= h@.len(),
    ensures
        n == line_ws_run(h@, i as int),
        i + n <= h@.len(),
{
    let mut j: usize = i;
    while j < h.len() && is_whitespace(h[j]) && h[j] != '\n' && h[j] != '\r'
        invariant
            i <= j <= h@.len(),
            line_ws_run(h@, i as int) == (j - i) + line_ws_run(h@, j as int),
        decreases h@.len() - j,
    {
        j = j + 1;
    }
    j - i
}

/// Whether `s` holds a `\r\n` pair.
pub fn contains_crlf(s: &[char]) -> (b: bool)
    ensures
        b == has_crlf(s@),
{
    let mut i: usize = 0;
    while i < s.len() && i + 1 < s.len()
        invariant
            i <= s@.len(),
            forall|k: int| 0 <= k < i ==> !#[trigger] crlf_at(s@, k),
        decreases s@.len() - i,
    {
        if s[i] == '\r' && s[i + 1] == '\n' {
            assert(crlf_at(s@, i as int));
            return true;
        }
        i = i + 1;
    }
    assert forall|k: int| !#[trigger] crlf_at(s@, k) by {
        if 0 <= k && k + 1 < s@.len() {
            assert(k < i);
        }
    }
    false
}

/// Every `\r\n` of `s` replaced by `\n`.
pub fn crlf_to_lf_chars(s: &[char]) -> (r: Vec<char>)
    ensures
        r@ == crlf_to_lf(s@),
{
    let mut r: Vec<char> = Vec::new();
    let mut i: usize = 0;
    assert(s@.skip(0) =~= s@);
    while i < s.len()
        invariant
            i <= s@.len(),
            crlf_to_lf(s@) == r@ + crlf_to_lf(s@.skip(i as int)),
        decreases s@.len() - i,
    {
        let ghost rest = s@.skip(i as int);
        if i + 1 < s.len() && s[i] == '\r' && s[i + 1] == '\n' {
            assert(rest.skip(2) =~= s@.skip(i + 2));
            r.push('\n');
            i = i + 2;
            assert(crlf_to_lf(s@) == r@ + crlf_to_lf(s@.skip(i as int)));
        } else {
            assert(rest.skip(1) =~= s@.skip(i + 1));
            r.push(s[i]);
            i = i + 1;
            assert(crlf_to_lf(s@) == r@ + crlf_to_lf(s@.skip(i as int)));
        }
    }
    assert(s@.skip(i as int) =~= Seq::<char>::empty());
    assert(r@ + Seq::<char>::empty() =~= r@);
    r
}

/// Every `\n` of `s` replaced by `\r\n`.
pub fn lf_to_crlf_chars(s: &[char]) -> (r: Vec<char>)
    ensures
        r@ == lf_to_crlf(s@),
{
    let mut r: Vec<char> = Vec::new();
    let mut i: usize = 0;
    assert(s@.skip(0) =~= s@);
    while i < s.len()
        invariant
            i <= s@.len(),
            lf_to_crlf(s@) == r@ + lf_to_crlf(s@.skip(i as int)),
        decreases s@.len() - i,
    {
        let ghost rest = s@.skip(i as int);
        assert(rest.skip(1) =~= s@.skip(i + 1));
        if s[i] == '\n' {
            r.push('\r');
            r.push('\n');
        } else {
            r.push(s[i]);
        }
        i = i + 1;
        assert(lf_to_crlf(s@) == r@ + lf_to_crlf(s@.skip(i as int)));
    }
    assert(s@.skip(i as int) =~= Seq::<char>::empty());
    assert(r@ + Seq::<char>::empty() =~= r@);
    r
}

/// Whether two character sequences are equal.
pub fn chars_eq(a: &[char], b: &[char]) -> (r: bool)
    ensures
        r == (a@ == b@),
{
    if a.len() != b.len() {
        return false;
    }
    let r = occurs_at(a, b, 0);
    proof {
        if r {
            assert(a@.subrange(0, b@.len() as int) =~= a@);
        } else {
            if a@ == b@ {
                assert(a@.subrange(0, b@.len() as int) =~= a@);
            }
        }
    }
    r
}

// ── Lines ───────────────────────────────────────────────────────────────────

/// `l` without one trailing carriage return.
pub open spec fn strip_cr(l: Seq<char>) -> Seq<char> {
    if l.len() > 0 && l.last() == '\r' {
        l.drop_last()
    } else {
        l
    }
}

/// Index of the first `\n` at or after `i`, or `s.len()`.
pub open spec fn next_newline(s: Seq<char>, i: int) -> int
    decreases s.len() - i,
{
    if i >= s.len() {
        s.len() as int
    } else if s[i] == '\n' {
        i
    } else {
        next_newline(s, i + 1)
    }
}

/// The lines of `s` from index `i` on (`str::lines`): split at `\n`, a
/// trailing `\r` removed from each line that a `\n` ends, and no empty line
/// after a final line ending.
pub open spec fn lines_from(s: Seq<char>, i: int) -> Seq<Seq<char>>
    decreases s.len() - i,
{
    if i < 0 || i >= s.len() {
        Seq::empty()
    } else {
        let e = next_newline(s, i);
        proof {
            lemma_next_newline(s, i);
        }
        if e >= s.len() {
            seq![s.subrange(i, s.len() as int)]
        } else {
            seq![strip_cr(s.subrange(i, e))] + lines_from(s, e + 1)
        }
    }
}

/// The lines of `s` (`str::lines`).
pub open spec fn lines_of(s: Seq<char>) -> Seq<Seq<char>> {
    lines_from(s, 0)
}

pub proof fn lemma_next_newline(s: Seq<char>, i: int)
    requires
        0 <= i <= s.len(),
    ensures
        i <= next_newline(s, i) <= s.len(),
        next_newline(s, i) < s.len() ==> s[next_newline(s, i)] == '\n',
        forall|k: int| i <= k < next_newline(s, i) ==> s[k] != '\n',
    decreases s.len() - i,
{
    if i < s.len() && s[i] != '\n' {
        lemma_next_newline(s, i + 1);
    }
}

/// A line as a vector of characters.
pub open spec fn lines_view(v: Seq<Vec<char>>) -> Seq<Seq<char>> {
    v.map_values(|l: Vec<char>| l@)
}

/// The lines of `s` (`str::lines`).
pub fn split_lines(s: &[char]) -> (r: Vec<Vec<char>>)
    ensures
        lines_view(r@) == lines_of(s@),
{
    let mut r: Vec<Vec<char>> = Vec::new();
    let mut i: usize = 0;
    assert(lines_view(r@) =~= Seq::<Seq<char>>::empty());
    while i < s.len()
        invariant
            i <= s@.len(),
            lines_of(s@) == lines_view(r@) + lines_from(s@, i as int),
        decreases s@.len() - i,
    {
        let mut e: usize = i;
        while e < s.len() && s[e] != '\n'
            invariant
                i <= e <= s@.len(),
                next_newline(s@, i as int) == next_newline(s@, e as int),
            decreases s@.len() - e,
        {
            e = e + 1;
        }
        let ghost before = lines_view(r@);
        if e >= s.len() {
            let line = copy_range(s, i, s.len());
            r.push(line);
            assert(lines_view(r@) =~= before.push(line@));
            assert(lines_from(s@, s@.len() as int) =~= Seq::<Seq<char>>::empty());
            assert(lines_view(r@) + lines_from(s@, s@.len() as int) =~= before + lines_from(s@, i as int));
            i = s.len();
        } else {
            let mut line = copy_range(s, i, e);
            if line.len() > 0 && line[line.len() - 1] == '\r' {
                line.pop();
                assert(line@ =~= strip_cr(s@.subrange(i as int, e as int)));
            }
            r.push(line);
            assert(lines_view(r@) =~= before.push(line@));
            assert(before + lines_from(s@, i as int) =~= lines_view(r@) + lines_from(s@, e + 1));
            i = e + 1;
        }
    }
    assert(lines_from(s@, i as int) =~= Seq::<Seq<char>>::empty());
    assert(lines_view(r@) + Seq::<Seq<char>>::empty() =~= lines_view(r@));
    r
}

/// `s` right-aligned in a field of `width` characters (`{:>width}`).
pub open spec fn pad_left(s: Seq<char>, width: nat) -> Seq<char> {
    if s.len() >= width {
        s
    } else {
        Seq::new((width - s.len()) as nat, |i: int| ' ') + s
    }
}

/// Appends `s` right-aligned in a field of `width` characters.
pub(crate) fn push_padded(out: &mut String, s: &[char], width: usize)
    ensures
        final(out)@ == old(out)@ + pad_left(s@, width as nat),
{
    let ghost o = out@;
    if s.len() < width {
        let pad = width - s.len();
        let mut k: usize = 0;
        while k < pad
            invariant
                k <= pad,
                out@ == o + Seq::new(k as nat, |i: int| ' '),
            decreases pad - k,
        {
            push_char(out, ' ');
            k = k + 1;
            assert(out@ =~= o + Seq::new(k as nat, |i: int| ' '));
        }
    }
    push_chars(out, s);
    assert(final(out)@ =~= o + pad_left(s@, width as nat));
}

/// `s` without trailing `\n` characters.
pub open spec fn strip_trailing_newlines(s: Seq<char>) -> Seq<char>
    decreases s.len(),
{
    if s.len() > 0 && s.last() == '\n' {
        strip_trailing_newlines(s.drop_last())
    } else {
        s
    }
}

/// `s` without its trailing `\n` characters.
pub fn without_trailing_newlines(s: &[char]) -> (r: Vec<char>)
    ensures
        r@ == strip_trailing_newlines(s@),
{
    let mut e: usize = s.len();
    assert(s@.take(e as int) =~= s@);
    while e > 0 && s[e - 1] == '\n'
        invariant
            e <= s@.len(),
            strip_trailing_newlines(s@) == strip_trailing_newlines(s@.take(e as int)),
        decreases e,
    {
        assert(s@.take(e as int).drop_last() =~= s@.take(e - 1));
        e = e - 1;
    }
    assert(s@.subrange(0, e as int) =~= s@.take(e as int));
    copy_range(s, 0, e)
}

/// Decimal digits of `n`.
pub fn dec_chars(n: u64) -> (r: Vec<char>)
    ensures
        r@ == dec(n as nat),
{
    let mut s = String::new();
    push_dec(&mut s, n);
    chars_of(s.as_str())
}

// ── Order ───────────────────────────────────────────────────────────────────

/// `a` comes strictly before `b` in code-point order.
pub open spec fn seq_lt(a: Seq<char>, b: Seq<char>) -> bool
    decreases a.len(),
{
    if a.len() == 0 {
        b.len() > 0
    } else if b.len() == 0 {
        false
    } else if a[0] != b[0] {
        a[0] < b[0]
    } else {
        seq_lt(a.drop_first(), b.drop_first())
    }
}

pub fn chars_lt(a: &[char], b: &[char]) -> (r: bool)
    ensures
        r == seq_lt(a@, b@),
{
    let mut i: usize = 0;
    assert(a@.skip(0) =~= a@);
    assert(b@.skip(0) =~= b@);
    while i < a.len() && i < b.len() && a[i] == b[i]
        invariant
            i <= a@.len(),
            i <= b@.len(),
            seq_lt(a@, b@) == seq_lt(a@.skip(i as int), b@.skip(i as int)),
        decreases a@.len() - i,
    {
        assert(a@.skip(i as int).drop_first() =~= a@.skip(i + 1));
        assert(b@.skip(i as int).drop_first() =~= b@.skip(i + 1));
        i = i + 1;
    }
    if i == a.len() {
        i < b.len()
    } else if i == b.len() {
        false
    } else {
        a[i] < b[i]
    }
}

pub proof fn lemma_seq_lt_asym(a: Seq<char>, b: Seq<char>)
    ensures
        !(seq_lt(a, b) && seq_lt(b, a)),
        !seq_lt(a, b) && !seq_lt(b, a) ==> a == b,
    decreases a.len(),
{
    if a.len() > 0 && b.len() > 0 && a[0] == b[0] {
        lemma_seq_lt_asym(a.drop_first(), b.drop_first());
        if !seq_lt(a, b) && !seq_lt(b, a) {
            assert(a =~= b) by {
                assert(a == seq![a[0]] + a.drop_first());
                assert(b == seq![b[0]] + b.drop_first());
            }
        }
    } else if a.len() == 0 && b.len() == 0 {
        assert(a =~= b);
    }
}

pub proof fn lemma_seq_lt_trans(a: Seq<char>, b: Seq<char>, c: Seq<char>)
    requires
        seq_lt(a, b),
        seq_lt(b, c),
    ensures
        seq_lt(a, c),
    decreases a.len(),
{
    if a.len() > 0 && a[0] == b[0] && b[0] == c[0] {
        lemma_seq_lt_trans(a.drop_first(), b.drop_first(), c.drop_first());
    }
}


/// `a` comes no later than `b` in code-point order.
pub open spec fn seq_le(a: Seq<char>, b: Seq<char>) -> bool {
    !seq_lt(b, a)
}

pub open spec fn text_order() -> spec_fn(Seq<char>, Seq<char>) -> bool {
    |a: Seq<char>, b: Seq<char>| seq_le(a, b)
}

/// The views of strings.
/// An optional string as an optional sequence of characters.
pub open spec fn opt_view(o: Option<String>) -> Option<Seq<char>> {
    match o {
        Some(s) => Some(s@),
        None => None,
    }
}

/// Optional strings as optional sequences of characters.
pub open spec fn opt_views(v: Seq<Option<String>>) -> Seq<Option<Seq<char>>> {
    v.map_values(|o: Option<String>| opt_view(o))
}

/// An optional string slice as an optional sequence of characters.
pub open spec fn str_opt_view(o: Option<&str>) -> Option<Seq<char>> {
    match o {
        Some(s) => Some(s@),
        None => None,
    }
}

pub open spec fn string_views(v: Seq<String>) -> Seq<Seq<char>> {
    v.map_values(|s: String| s@)
}

/// Code-point order is transitive.
pub proof fn lemma_seq_le_trans(a: Seq<char>, b: Seq<char>, c: Seq<char>)
    requires
        seq_le(a, b),
        seq_le(b, c),
    ensures
        seq_le(a, c),
{
    lemma_seq_lt_asym(b, c);
    if seq_lt(c, a) {
        if b != c {
            assert(seq_lt(b, c));
            lemma_seq_lt_trans(b, c, a);
        }
    }
}

fn insert_sorted(v: &mut Vec<String>, x: String)
    requires
        sorted_by(string_views(old(v)@), text_order()),
    ensures
        sorted_by(string_views(final(v)@), text_order()),
        string_views(final(v)@).to_multiset() == string_views(old(v)@).to_multiset().insert(x@),
{
    let ghost before = string_views(v@);
    let xc = chars_of(x.as_str());
    let mut p: usize = 0;
    while p < v.len() && !chars_lt(&xc, &chars_of(v[p].as_str()))
        invariant
            p <= v@.len(),
            before == string_views(v@),
            xc@ == x@,
            forall|q: int| 0 <= q < p ==> seq_le(#[trigger] before[q], x@),
        decreases v@.len() - p,
    {
        assert(before[p as int] == v@[p as int]@);
        p = p + 1;
    }
    let ghost tx = x@;
    v.insert(p, x);
    proof {
        let after = string_views(v@);
        assert(after =~= before.insert(p as int, tx));
        let ro = text_order();
        if p < before.len() {
            assert(seq_lt(tx, before[p as int]));
            lemma_seq_lt_asym(tx, before[p as int]);
        }
        assert forall|a: int, b: int| 0 <= a < b < after.len() implies #[trigger] ro(
            after[a],
            after[b],
        ) by {
            if b < p {
                assert(ro(before[a], before[b]));
            } else if b == p {
                assert(seq_le(before[a], tx));
            } else if a < p {
                assert(ro(before[a], before[b - 1]));
            } else if a == p {
                if b - 1 > p {
                    assert(ro(before[p as int], before[b - 1]));
                    lemma_seq_le_trans(tx, before[p as int], before[b - 1]);
                }
            } else {
                assert(ro(before[a - 1], before[b - 1]));
            }
        }
        vstd::seq_lib::to_multiset_insert(before, p as int, tx);
    }
}

/// `v` in code-point order.
pub fn sort_strings(v: Vec<String>) -> (r: Vec<String>)
    ensures
        sorted_by(string_views(r@), text_order()),
        string_views(r@).to_multiset() == string_views(v@).to_multiset(),
{
    let mut r: Vec<String> = Vec::new();
    let mut rest = v;
    let n = rest.len();
    let ghost all = string_views(rest@);
    let mut k: usize = 0;
    proof {
        vstd::seq_lib::to_multiset_len(string_views(r@));
        vstd::seq_lib::to_multiset_len(all.take(0));
        broadcast use vstd::multiset::group_multiset_axioms;
        assert(string_views(r@).to_multiset() =~= all.take(0).to_multiset());
    }
    while rest.len() > 0
        invariant
            k + rest@.len() == n,
            n == all.len(),
            string_views(rest@) == all.skip(k as int),
            sorted_by(string_views(r@), text_order()),
            string_views(r@).to_multiset() == all.take(k as int).to_multiset(),
        decreases rest@.len(),
    {
        let ghost before = rest@;
        let x = rest.remove(0);
        proof {
            assert(x == before[0]);
            assert(string_views(before)[0] == all.skip(k as int)[0]);
            assert(all.take(k + 1) =~= all.take(k as int).push(x@));
            vstd::seq_lib::to_multiset_build(all.take(k as int), x@);
        }
        insert_sorted(&mut r, x);
        assert(rest@ =~= before.drop_first());
        assert(string_views(rest@) =~= string_views(before).drop_first());
        assert(all.skip(k + 1) =~= all.skip(k as int).drop_first());
        k = k + 1;
    }
    assert(all.take(k as int) =~= all);
    r
}

// ── Search ──────────────────────────────────────────────────────────────────

/// The lowercase form of `s` (`str::to_lowercase`).
pub uninterp spec fn lowercase(s: Seq<char>) -> Seq<char>;

/// `s.to_lowercase()`.
#[verifier::external_body]
pub(crate) fn to_lower(s: &str) -> (r: String)
    ensures
        r@ == lowercase(s@),
{
    s.to_lowercase()
}

/// `n` occurs somewhere in `h`; the empty sequence occurs everywhere.
pub open spec fn contains_seq(h: Seq<char>, n: Seq<char>) -> bool {
    exists|i: int| #[trigger] matches_at(h, n, i)
}

/// The first index at which `n` occurs in `h`, when it occurs.
pub open spec fn first_match_from(h: Seq<char>, n: Seq<char>, i: int) -> Option<int>
    decreases h.len() + 1 - i,
{
    if i < 0 || i > h.len() {
        None
    } else if matches_at(h, n, i) {
        Some(i)
    } else {
        first_match_from(h, n, i + 1)
    }
}

pub proof fn lemma_first_match(h: Seq<char>, n: Seq<char>, i: int)
    requires
        0 <= i <= h.len(),
    ensures
        first_match_from(h, n, i) matches Some(k) ==> i <= k && matches_at(h, n, k),
        first_match_from(h, n, i) is None ==> forall|k: int| i <= k ==> !#[trigger] matches_at(h, n, k),
    decreases h.len() - i,
{
    if !matches_at(h, n, i) {
        if i < h.len() {
            lemma_first_match(h, n, i + 1);
        } else {
            assert(first_match_from(h, n, i + 1) is None);
        }
    }
}

/// The first index at which `n` occurs in `h`.
pub fn find_first(h: &[char], n: &[char]) -> (r: Option<usize>)
    ensures
        r matches Some(k) ==> first_match_from(h@, n@, 0) == Some(k as int),
        r is None ==> first_match_from(h@, n@, 0) is None,
{
    let mut i: usize = 0;
    while i <= h.len()
        invariant
            i <= h@.len() + 1,
            first_match_from(h@, n@, 0) == first_match_from(h@, n@, i as int),
        decreases h@.len() + 1 - i,
    {
        if occurs_at(h, n, i) {
            return Some(i);
        }
        if i == h.len() {
            assert(first_match_from(h@, n@, i + 1) is None);
            return None;
        }
        i = i + 1;
    }
    None
}

/// Whether `n` occurs in `h`.
pub fn contains_chars(h: &[char], n: &[char]) -> (b: bool)
    ensures
        b == contains_seq(h@, n@),
{
    let r = find_first(h, n);
    proof {
        lemma_first_match(h@, n@, 0);
        if r is None {
            assert forall|k: int| !#[trigger] matches_at(h@, n@, k) by {
                if k >= 0 {
                } else {
                }
            }
        }
    }
    r.is_some()
}

// ── Numbers ─────────────────────────────────────────────────────────────────

pub open spec fn is_digit(c: char) -> bool {
    '0' <= c && c <= '9'
}

/// The value of the decimal digits `s`.
pub open spec fn digits_value(s: Seq<char>) -> nat
    decreases s.len(),
{
    if s.len() == 0 {
        0
    } else {
        digits_value(s.drop_last()) * 10 + ((s.last() as int) - 48) as nat
    }
}

/// Every character is a decimal digit.
pub open spec fn all_digits(d: Seq<char>) -> bool {
    forall|i: int| 0 <= i < d.len() ==> is_digit(#[trigger] d[i])
}

/// `s` without a leading `+`.
pub open spec fn digits_part(s: Seq<char>) -> Seq<char> {
    if s.len() > 0 && s[0] == '+' {
        s.drop_first()
    } else {
        s
    }
}

/// `usize`'s `FromStr`: an optional `+` and one or more decimal digits whose
/// value fits.
pub open spec fn parsed_usize(s: Seq<char>) -> Option<usize> {
    let d = digits_part(s);
    if d.len() > 0 && all_digits(d) && digits_value(d) <= usize::MAX {
        Some(digits_value(d) as usize)
    } else {
        None
    }
}

/// `s.parse::<usize>().ok()`.
pub fn parse_usize(s: &str) -> (r: Option<usize>)
    ensures
        r == parsed_usize(s@),
{
    let c = chars_of(s);
    let start: usize = if c.len() > 0 && c[0] == '+' {
        1
    } else {
        0
    };
    let ghost d = digits_part(s@);
    assert(d =~= c@.skip(start as int));
    if start >= c.len() {
        return None;
    }
    let mut v: usize = 0;
    let mut i: usize = start;
    while i < c.len()
        invariant
            start <= i <= c@.len(),
            c@ == s@,
            d == digits_part(s@),
            d == c@.skip(start as int),
            forall|k: int| start <= k < i ==> is_digit(#[trigger] c@[k]),
            v == digits_value(c@.subrange(start as int, i as int)),
        decreases c@.len() - i,
    {
        let ch = c[i];
        assert(c@.subrange(start as int, i + 1).drop_last() =~= c@.subrange(start as int, i as int));
        if !('0' <= ch && ch <= '9') {
            assert(!is_digit(d[i - start]));
            assert(!all_digits(d));
            assert(parsed_usize(s@) is None);
            return None;
        }
        let digit = (ch as u32 - 48) as usize;
        if v > (usize::MAX - digit) / 10 {
            proof {
                assert(digits_value(c@.subrange(start as int, i + 1)) == v * 10 + digit);
                assert(v * 10 + digit > usize::MAX) by (nonlinear_arith)
                    requires
                        v > (usize::MAX - digit) / 10,
                        digit <= 9,
                ;
                if all_digits(d) {
                    assert(d.take((i + 1 - start) as int) =~= c@.subrange(start as int, i + 1));
                    lemma_digits_grow(d, (i + 1 - start) as int);
                    assert(digits_value(d) > usize::MAX);
                }
                assert(parsed_usize(s@) is None);
            }
            return None;
        }
        proof {
            assert(v * 10 + digit <= usize::MAX) by (nonlinear_arith)
                requires
                    v <= (usize::MAX - digit) / 10,
                    digit <= 9,
            ;
        }
        v = v * 10 + digit;
        i = i + 1;
    }
    assert(c@.subrange(start as int, i as int) =~= d);
    assert forall|q: int| 0 <= q < d.len() implies is_digit(#[trigger] d[q]) by {
        assert(d[q] == c@[start + q]);
    }
    assert(all_digits(d));
    Some(v)
}

/// The value of a digit string is at least that of its prefixes.
pub proof fn lemma_digits_grow(d: Seq<char>, k: int)
    requires
        0 <= k <= d.len(),
        all_digits(d),
    ensures
        digits_value(d.take(k)) <= digits_value(d),
    decreases d.len() - k,
{
    if k < d.len() {
        assert(d.drop_last().take(k) =~= d.take(k)) by {
            if k <= d.len() - 1 {
            }
        };
        if k <= d.len() - 1 {
            lemma_digits_grow(d.drop_last(), k);
            assert(d.drop_last().take(k) =~= d.take(k));
        }
        assert(digits_value(d) == digits_value(d.drop_last()) * 10 + ((d.last() as int) - 48) as nat);
    } else {
        assert(d.take(k) =~= d);
    }
}

} // verus!
