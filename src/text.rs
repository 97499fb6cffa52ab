use vstd::prelude::*;
use vstd::utf8::*;

verus! {

/// Longest line, terminator included, that a reader accepts.
pub const MAX_LINE_LENGTH: usize = 8192;

/// ASCII whitespace, as `u8::is_ascii_whitespace` defines it.
pub open spec fn is_ws(b: u8) -> bool {
    b == 0x20 || b == 0x09 || b == 0x0a || b == 0x0c || b == 0x0d
}

/// The same set of characters, as chars.
pub open spec fn is_ws_char(c: char) -> bool {
    c == ' ' || c == '\t' || c == '\n' || c == '\x0C' || c == '\r'
}

/// `s` without its leading whitespace.
pub open spec fn trim_start(s: Seq<u8>) -> Seq<u8>
    decreases s.len(),
{
    if s.len() > 0 && is_ws(s[0]) {
        trim_start(s.subrange(1, s.len() as int))
    } else {
        s
    }
}

/// `s` without its trailing whitespace.
pub open spec fn trim_end(s: Seq<u8>) -> Seq<u8>
    decreases s.len(),
{
    if s.len() > 0 && is_ws(s.last()) {
        trim_end(s.drop_last())
    } else {
        s
    }
}

/// `s` without surrounding whitespace.
pub open spec fn trim(s: Seq<u8>) -> Seq<u8> {
    trim_end(trim_start(s))
}

pub open spec fn trim_start_chars(s: Seq<char>) -> Seq<char>
    decreases s.len(),
{
    if s.len() > 0 && is_ws_char(s[0]) {
        trim_start_chars(s.subrange(1, s.len() as int))
    } else {
        s
    }
}

pub open spec fn trim_end_chars(s: Seq<char>) -> Seq<char>
    decreases s.len(),
{
    if s.len() > 0 && is_ws_char(s.last()) {
        trim_end_chars(s.drop_last())
    } else {
        s
    }
}

/// `s` without surrounding ASCII whitespace.
pub open spec fn trim_chars(s: Seq<char>) -> Seq<char> {
    trim_end_chars(trim_start_chars(s))
}

pub open spec fn lower_byte(b: u8) -> u8 {
    if 0x41 <= b <= 0x5a {
        (b + 0x20) as u8
    } else {
        b
    }
}

/// ASCII case folding: upper-case letters become lower-case, other bytes stay.
pub open spec fn lower(s: Seq<u8>) -> Seq<u8> {
    s.map_values(|b: u8| lower_byte(b))
}

pub open spec fn is_alnum(b: u8) -> bool {
    (0x30 <= b <= 0x39) || (0x41 <= b <= 0x5a) || (0x61 <= b <= 0x7a)
}

/// A byte allowed in a header field name: a letter, a digit or one of ``!#$%&'*+-.^_`|~``.
pub open spec fn is_token_byte(b: u8) -> bool {
    is_alnum(b) || b == 0x21 || b == 0x23 || b == 0x24 || b == 0x25 || b == 0x26 || b == 0x27
        || b == 0x2a || b == 0x2b || b == 0x2d || b == 0x2e || b == 0x5e || b == 0x5f || b == 0x60
        || b == 0x7c || b == 0x7e
}

pub open spec fn all_ascii(s: Seq<u8>) -> bool {
    forall|i: int| 0 <= i < s.len() ==> #[trigger] s[i] < 0x80
}

/// Index of the first `b` in `s` at or after `pos`, or `s.len()` when there is none.
pub open spec fn find_byte(s: Seq<u8>, pos: int, b: u8) -> int
    decreases s.len() - pos,
{
    if pos < 0 || pos >= s.len() {
        s.len() as int
    } else if s[pos] == b {
        pos
    } else {
        find_byte(s, pos + 1, b)
    }
}

pub proof fn lemma_find_byte(s: Seq<u8>, pos: int, b: u8)
    requires
        0 <= pos <= s.len(),
    ensures
        pos <= find_byte(s, pos, b) <= s.len(),
        find_byte(s, pos, b) < s.len() ==> s[find_byte(s, pos, b)] == b,
        forall|j: int| pos <= j < find_byte(s, pos, b) ==> s[j] != b,
    decreases s.len() - pos,
{
    if pos < s.len() && s[pos] != b {
        lemma_find_byte(s, pos + 1, b);
    }
}

pub proof fn lemma_find_byte_first(s: Seq<u8>, pos: int, k: int, b: u8)
    requires
        0 <= pos <= k < s.len(),
        s[k] == b,
        forall|j: int| pos <= j < k ==> s[j] != b,
    ensures
        find_byte(s, pos, b) == k,
    decreases k - pos,
{
    if pos < k {
        lemma_find_byte_first(s, pos + 1, k, b);
    }
}

/// Position just past the line that starts at `pos`: past its first `\n`, or the end of `s`.
pub open spec fn line_end(s: Seq<u8>, pos: int) -> int {
    let nl = find_byte(s, pos, 0x0a);
    if nl < s.len() {
        nl + 1
    } else {
        s.len() as int
    }
}

/// Whether the line that starts at `pos` is over the limit: its first `MAX_LINE_LENGTH`
/// bytes hold no line feed.
pub open spec fn line_too_long(s: Seq<u8>, pos: int) -> bool {
    find_byte(s, pos, 0x0a) >= pos + MAX_LINE_LENGTH && s.len() >= pos + MAX_LINE_LENGTH
}

pub proof fn lemma_line_end(s: Seq<u8>, pos: int)
    requires
        0 <= pos < s.len(),
    ensures
        pos < line_end(s, pos) <= s.len(),
{
    lemma_find_byte(s, pos, 0x0a);
}

pub open spec fn crlf() -> Seq<u8> {
    seq![0x0du8, 0x0au8]
}

pub open spec fn ends_with_crlf(l: Seq<u8>) -> bool {
    l.len() >= 2 && l[l.len() - 2] == 0x0d && l[l.len() - 1] == 0x0a
}

/// Value of a sequence of decimal digits.
pub open spec fn digits_value(s: Seq<u8>) -> nat
    decreases s.len(),
{
    if s.len() == 0 {
        0
    } else {
        digits_value(s.drop_last()) * 10 + (s.last() - 0x30) as nat
    }
}

pub open spec fn all_digits(s: Seq<u8>) -> bool {
    forall|i: int| 0 <= i < s.len() ==> 0x30 <= #[trigger] s[i] <= 0x39
}

/// The digits of an unsigned decimal number, after an optional `+`.
pub open spec fn unsigned_digits(s: Seq<u8>) -> Seq<u8> {
    if s.len() > 0 && s[0] == 0x2b {
        s.subrange(1, s.len() as int)
    } else {
        s
    }
}

/// The `usize` that `s` writes in decimal, as `usize::from_str` reads it.
pub open spec fn parse_decimal(s: Seq<u8>) -> Option<nat> {
    let d = unsigned_digits(s);
    if d.len() > 0 && all_digits(d) && digits_value(d) <= usize::MAX {
        Some(digits_value(d))
    } else {
        None
    }
}

/// Decimal digits of `n`, without leading zeros.
pub open spec fn decimal_of(n: nat) -> Seq<u8>
    decreases n,
{
    if n < 10 {
        seq![(0x30 + n) as u8]
    } else {
        decimal_of(n / 10).push((0x30 + n % 10) as u8)
    }
}

pub proof fn lemma_ascii_valid_utf8(s: Seq<u8>)
    requires
        all_ascii(s),
    ensures
        valid_utf8(s),
{
    assert(s.subrange(0, 0) =~= Seq::<u8>::empty());
    assert forall|i: int| 0 <= 0 <= i < s.len() <= s.len() implies #[trigger] is_leading_byte_width_1(
        s[i],
    ) by {
        assert(s[i] < 0x80);
    }
    partial_valid_utf8_extend_ascii_block(s, 0, s.len() as int);
    assert(s.subrange(0, s.len() as int) =~= s);
}

proof fn lemma_digits_step(s: Seq<u8>, k: int)
    requires
        0 <= k < s.len(),
    ensures
        digits_value(s.subrange(0, k + 1)) == digits_value(s.subrange(0, k)) * 10 + (s[k]
            - 0x30) as nat,
{
    assert(s.subrange(0, k + 1).drop_last() =~= s.subrange(0, k));
}

proof fn lemma_digits_monotone(s: Seq<u8>, k: int, j: int)
    requires
        0 <= k <= j <= s.len(),
        all_digits(s),
    ensures
        digits_value(s.subrange(0, k)) <= digits_value(s.subrange(0, j)),
    decreases j - k,
{
    if k < j {
        lemma_digits_monotone(s, k, j - 1);
        lemma_digits_step(s, j - 1);
        assert(0x30 <= s[j - 1]);
    }
}

/// Relies on `String::from_utf8`: it accepts exactly the valid UTF-8 sequences and decodes them.
#[verifier::external_body]
pub(crate) fn utf8_string(b: Vec<u8>) -> (r: Option<String>)
    ensures
        r is Some <==> valid_utf8(b@),
        r matches Some(s) ==> s@ == decode_utf8(b@),
{
    String::from_utf8(b).ok()
}

/// Relies on `str::trim_ascii`: it removes leading and trailing ASCII whitespace.
#[verifier::external_body]
pub(crate) fn trim_ascii_str(s: &str) -> (r: &str)
    ensures
        r@ == trim_chars(s@),
{
    s.trim_ascii()
}

/// Appends `src` to `out`.
pub fn append_bytes(out: &mut Vec<u8>, src: &[u8])
    ensures
        final(out)@ == old(out)@ + src@,
{
    let mut i: usize = 0;
    while i < src.len()
        invariant
            i <= src@.len(),
            out@ == old(out)@ + src@.subrange(0, i as int),
        decreases src@.len() - i,
    {
        out.push(src[i]);
        i = i + 1;
        assert(out@ =~= old(out)@ + src@.subrange(0, i as int));
    }
    assert(src@.subrange(0, i as int) =~= src@);
}

/// Index of the first `b` in `s` at or after `pos`, or `s.len()`.
pub fn find(s: &[u8], pos: usize, b: u8) -> (r: usize)
    requires
        pos <= s@.len(),
    ensures
        r == find_byte(s@, pos as int, b),
{
    let mut i = pos;
    while i < s.len() && s[i] != b
        invariant
            pos <= i <= s@.len(),
            find_byte(s@, pos as int, b) == find_byte(s@, i as int, b),
        decreases s@.len() - i,
    {
        i = i + 1;
    }
    i
}

/// The bounds of `s[start..end]` once surrounding whitespace is removed.
pub fn trim_bounds(s: &[u8], start: usize, end: usize) -> (r: (usize, usize))
    requires
        start <= end <= s@.len(),
    ensures
        start <= r.0 <= r.1 <= end,
        s@.subrange(r.0 as int, r.1 as int) == trim(s@.subrange(start as int, end as int)),
{
    let ghost all = s@.subrange(start as int, end as int);
    let mut i = start;
    while i < end && is_ws_byte(s[i])
        invariant
            start <= i <= end <= s@.len(),
            trim_start(all) == trim_start(s@.subrange(i as int, end as int)),
        decreases end - i,
    {
        proof {
            let cur = s@.subrange(i as int, end as int);
            assert(cur.subrange(1, cur.len() as int) =~= s@.subrange(i + 1, end as int));
        }
        i = i + 1;
    }
    let mut j = end;
    while j > i && is_ws_byte(s[j - 1])
        invariant
            start <= i <= j <= end <= s@.len(),
            trim(all) == trim_end(s@.subrange(i as int, j as int)),
        decreases j - i,
    {
        proof {
            let cur = s@.subrange(i as int, j as int);
            assert(cur.drop_last() =~= s@.subrange(i as int, j - 1));
        }
        j = j - 1;
    }
    (i, j)
}

pub fn is_ws_byte(b: u8) -> (r: bool)
    ensures
        r == is_ws(b),
{
    b == 0x20 || b == 0x09 || b == 0x0a || b == 0x0c || b == 0x0d
}

pub fn is_token(b: u8) -> (r: bool)
    ensures
        r == is_token_byte(b),
{
    (0x30 <= b && b <= 0x39) || (0x41 <= b && b <= 0x5a) || (0x61 <= b && b <= 0x7a) || b == 0x21
        || b == 0x23 || b == 0x24 || b == 0x25 || b == 0x26 || b == 0x27 || b == 0x2a || b == 0x2b
        || b == 0x2d || b == 0x2e || b == 0x5e || b == 0x5f || b == 0x60 || b == 0x7c || b == 0x7e
}

/// `s[start..end]` with ASCII letters folded to lower case.
pub fn lower_range(s: &[u8], start: usize, end: usize) -> (r: Vec<u8>)
    requires
        start <= end <= s@.len(),
    ensures
        r@ == lower(s@.subrange(start as int, end as int)),
{
    let mut out: Vec<u8> = Vec::new();
    let mut i = start;
    while i < end
        invariant
            start <= i <= end <= s@.len(),
            out@ == lower(s@.subrange(start as int, i as int)),
        decreases end - i,
    {
        let b = s[i];
        let l: u8 = if 0x41 <= b && b <= 0x5a {
            b + 0x20
        } else {
            b
        };
        out.push(l);
        i = i + 1;
        assert(out@ =~= lower(s@.subrange(start as int, i as int)));
    }
    out
}

/// Reads `s` as an unsigned decimal `usize`, as `usize::from_str` does.
pub fn parse_usize(s: &[u8]) -> (r: Option<usize>)
    ensures
        match parse_decimal(s@) {
            Some(n) => r == Some(n as usize),
            None => r is None,
        },
{
    let start: usize = if s.len() > 0 && s[0] == 0x2b {
        1
    } else {
        0
    };
    let ghost d = unsigned_digits(s@);
    assert(d =~= s@.subrange(start as int, s@.len() as int));
    if start == s.len() {
        return None;
    }
    let mut i = start;
    while i < s.len()
        invariant
            start <= i <= s@.len(),
            d == s@.subrange(start as int, s@.len() as int),
            d == unsigned_digits(s@),
            forall|k: int| start <= k < i ==> 0x30 <= #[trigger] s@[k] <= 0x39,
        decreases s@.len() - i,
    {
        if s[i] < 0x30 || s[i] > 0x39 {
            assert(d[i - start] == s@[i as int]);
            assert(!all_digits(d));
            return None;
        }
        i = i + 1;
    }
    assert(all_digits(d)) by {
        assert forall|k: int| 0 <= k < d.len() implies 0x30 <= #[trigger] d[k] <= 0x39 by {
            assert(d[k] == s@[k + start]);
        }
    }
    let mut acc: usize = 0;
    let mut i = start;
    while i < s.len()
        invariant
            start <= i <= s@.len(),
            d == s@.subrange(start as int, s@.len() as int),
            d == unsigned_digits(s@),
            all_digits(d),
            acc as nat == digits_value(d.subrange(0, i - start)),
        decreases s@.len() - i,
    {
        proof {
            lemma_digits_step(d, i - start);
            assert(d[i - start] == s@[i as int]);
        }
        let digit = (s[i] - 0x30) as usize;
        match acc.checked_mul(10) {
            Some(m) => match m.checked_add(digit) {
                Some(v) => {
                    acc = v;
                },
                None => {
                    proof {
                        lemma_digits_monotone(d, i - start + 1, d.len() as int);
                        assert(d.subrange(0, d.len() as int) =~= d);
                        assert(digits_value(d) > usize::MAX);
                    }
                    return None;
                },
            },
            None => {
                proof {
                    lemma_digits_monotone(d, i - start + 1, d.len() as int);
                    assert(d.subrange(0, d.len() as int) =~= d);
                    assert(digits_value(d) > usize::MAX);
                }
                return None;
            },
        }
        i = i + 1;
    }
    assert(d.subrange(0, d.len() as int) =~= d);
    Some(acc)
}

/// Appends the decimal digits of `n` to `out`.
pub fn push_decimal(out: &mut Vec<u8>, n: usize)
    ensures
        final(out)@ == old(out)@ + decimal_of(n as nat),
    decreases n,
{
    if n >= 10 {
        push_decimal(out, n / 10);
    }
    out.push((0x30 + n % 10) as u8);
    assert(out@ =~= old(out)@ + decimal_of(n as nat));
}

pub proof fn lemma_decimal_ascii(n: nat)
    ensures
        all_ascii(decimal_of(n)),
        decimal_of(n).len() > 0,
    decreases n,
{
    if n >= 10 {
        lemma_decimal_ascii(n / 10);
    }
}

} // verus!
