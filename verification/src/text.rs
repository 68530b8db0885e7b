//! Character-level building blocks: decimal numbers, trimming, UTF-16.
use vstd::prelude::*;

verus! {

/// The character of a decimal digit `0..=9`.
pub open spec fn digit_char(d: nat) -> char {
    (d + 48) as char
}

/// Decimal digits of a natural number, most significant first, without leading zeros.
pub open spec fn decimal_digits(n: nat) -> Seq<char>
    decreases n,
{
    if n < 10 {
        seq![digit_char(n)]
    } else {
        decimal_digits(n / 10).push(digit_char(n % 10))
    }
}

/// Decimal rendering of an integer, with a leading `-` when negative.
pub open spec fn decimal(v: int) -> Seq<char> {
    if v < 0 {
        seq!['-'] + decimal_digits((-v) as nat)
    } else {
        decimal_digits(v as nat)
    }
}

/// `String::push`. The contract claims that the string afterwards holds its
/// former characters followed by `c`.
#[verifier::external_body]
pub(crate) fn push_char(s: &mut String, c: char)
    ensures
        final(s)@ == old(s)@.push(c),
{
    s.push(c);
}

fn push_digits(s: &mut String, n: u32)
    ensures
        final(s)@ == old(s)@ + decimal_digits(n as nat),
    decreases n,
{
    if n >= 10 {
        push_digits(s, n / 10);
    }
    let d: u8 = (n % 10) as u8;
    let c: char = (d + 48u8) as char;
    push_char(s, c);
    proof {
        assert(c == digit_char((n % 10) as nat));
    }
}

/// Appends the decimal rendering of `v`.
pub fn push_decimal(s: &mut String, v: i32)
    ensures
        final(s)@ == old(s)@ + decimal(v as int),
{
    if v < 0 {
        push_char(s, '-');
        let m: i64 = -(v as i64);
        push_digits(s, m as u32);
    } else {
        push_digits(s, v as u32);
    }
}

} // verus!

verus! {

/// Unicode `White_Space` characters, which `char::is_whitespace` and `str::trim` use.
pub open spec fn is_white_space(c: char) -> bool {
    let v = c as u32;
    ||| 0x09 <= v <= 0x0D
    ||| v == 0x20
    ||| v == 0x85
    ||| v == 0xA0
    ||| v == 0x1680
    ||| 0x2000 <= v <= 0x200A
    ||| v == 0x2028
    ||| v == 0x2029
    ||| v == 0x202F
    ||| v == 0x205F
    ||| v == 0x3000
}

/// Characters of the Unicode general category `Cc`, which `char::is_control` accepts.
pub open spec fn is_control(c: char) -> bool {
    let v = c as u32;
    v <= 0x1F || 0x7F <= v <= 0x9F
}

/// The characters after the leading white space.
pub open spec fn trim_start(s: Seq<char>) -> Seq<char>
    decreases s.len(),
{
    if s.len() > 0 && is_white_space(s[0]) {
        trim_start(s.drop_first())
    } else {
        s
    }
}

/// The characters before the trailing white space.
pub open spec fn trim_end(s: Seq<char>) -> Seq<char>
    decreases s.len(),
{
    if s.len() > 0 && is_white_space(s.last()) {
        trim_end(s.drop_last())
    } else {
        s
    }
}

/// Leading and trailing white space removed, as `str::trim` does.
pub open spec fn trim(s: Seq<char>) -> Seq<char> {
    trim_end(trim_start(s))
}

pub fn is_white_space_char(c: char) -> (res: bool)
    ensures
        res == is_white_space(c),
{
    let v = c as u32;
    (0x09 <= v && v <= 0x0D) || v == 0x20 || v == 0x85 || v == 0xA0 || v == 0x1680 || (0x2000
        <= v && v <= 0x200A) || v == 0x2028 || v == 0x2029 || v == 0x202F || v == 0x205F || v
        == 0x3000
}

pub fn is_control_char(c: char) -> (res: bool)
    ensures
        res == is_control(c),
{
    let v = c as u32;
    v <= 0x1F || (0x7F <= v && v <= 0x9F)
}

proof fn lemma_trim_start_skip(s: Seq<char>, i: int)
    requires
        0 <= i <= s.len(),
        forall|k: int| 0 <= k < i ==> is_white_space(#[trigger] s[k]),
    ensures
        trim_start(s) == trim_start(s.subrange(i, s.len() as int)),
    decreases i,
{
    if i > 0 {
        lemma_trim_start_skip(s.drop_first(), i - 1);
        assert(s.drop_first().subrange(i - 1, s.drop_first().len() as int) =~= s.subrange(
            i,
            s.len() as int,
        ));
    } else {
        assert(s.subrange(0, s.len() as int) =~= s);
    }
}

proof fn lemma_trim_end_cut(s: Seq<char>, j: int)
    requires
        0 <= j <= s.len(),
        forall|k: int| j <= k < s.len() ==> is_white_space(#[trigger] s[k]),
    ensures
        trim_end(s) == trim_end(s.subrange(0, j)),
    decreases s.len() - j,
{
    if j < s.len() {
        lemma_trim_end_cut(s.drop_last(), j);
        assert(s.drop_last().subrange(0, j) =~= s.subrange(0, j));
    } else {
        assert(s.subrange(0, j) =~= s);
    }
}

/// The characters of `s` without leading and trailing white space.
pub fn trim_chars(s: &Vec<char>) -> (res: Vec<char>)
    ensures
        res@ == trim(s@),
{
    let n = s.len();
    let mut i: usize = 0;
    while i < n && is_white_space_char(s[i])
        invariant
            i <= n == s.len(),
            forall|k: int| 0 <= k < i ==> is_white_space(#[trigger] s@[k]),
        decreases n - i,
    {
        i = i + 1;
    }
    let mut j: usize = n;
    while j > i && is_white_space_char(s[j - 1])
        invariant
            i <= j <= n == s.len(),
            forall|k: int| j <= k < n ==> is_white_space(#[trigger] s@[k]),
        decreases j,
    {
        j = j - 1;
    }
    let mut res: Vec<char> = Vec::new();
    let mut k: usize = i;
    while k < j
        invariant
            i <= k <= j <= n == s.len(),
            res@ =~= s@.subrange(i as int, k as int),
        decreases j - k,
    {
        res.push(s[k]);
        k = k + 1;
    }
    proof {
        let mid = s@.subrange(i as int, n as int);
        lemma_trim_start_skip(s@, i as int);
        assert(i == n || !is_white_space(mid[0]));
        assert(trim_start(mid) == mid);
        assert forall|k: int| (j - i) <= k < mid.len() implies is_white_space(#[trigger] mid[k]) by {
            assert(mid[k] == s@[k + i]);
        }
        lemma_trim_end_cut(mid, (j - i) as int);
        let fin = mid.subrange(0, (j - i) as int);
        assert(fin =~= s@.subrange(i as int, j as int));
        if j > i {
            assert(fin.last() == s@[j - 1]);
        }
        assert(trim_end(fin) == fin);
    }
    res
}

proof fn lemma_trim_start_head(s: Seq<char>)
    ensures
        trim_start(s).len() == 0 || !is_white_space(trim_start(s)[0]),
    decreases s.len(),
{
    if s.len() > 0 && is_white_space(s[0]) {
        lemma_trim_start_head(s.drop_first());
    }
}

proof fn lemma_trim_end_prefix(s: Seq<char>)
    ensures
        trim_end(s).len() <= s.len(),
        trim_end(s) == s.subrange(0, trim_end(s).len() as int),
        trim_end(s).len() == 0 || !is_white_space(trim_end(s).last()),
    decreases s.len(),
{
    if s.len() > 0 && is_white_space(s.last()) {
        lemma_trim_end_prefix(s.drop_last());
        assert(s.drop_last().subrange(0, trim_end(s).len() as int) =~= s.subrange(
            0,
            trim_end(s).len() as int,
        ));
    } else {
        assert(s.subrange(0, s.len() as int) =~= s);
    }
}

/// Trimming trimmed text changes nothing.
pub proof fn lemma_trim_idempotent(s: Seq<char>)
    ensures
        trim(trim(s)) == trim(s),
{
    let r = trim_start(s);
    let u = trim_end(r);
    lemma_trim_start_head(s);
    lemma_trim_end_prefix(r);
    if u.len() > 0 {
        assert(u[0] == r[0]);
        assert(trim_start(u) == u);
    } else {
        assert(trim_start(u) == u);
    }
    assert(trim_end(u) == u);
}

/// Whether some character is a control character.
pub fn has_control(s: &Vec<char>) -> (res: bool)
    ensures
        res == exists|k: int| 0 <= k < s@.len() && is_control(#[trigger] s@[k]),
{
    let mut k: usize = 0;
    while k < s.len()
        invariant
            k <= s.len(),
            forall|m: int| 0 <= m < k ==> !is_control(#[trigger] s@[m]),
        decreases s.len() - k,
    {
        if is_control_char(s[k]) {
            return true;
        }
        k = k + 1;
    }
    false
}

} // verus!

verus! {

/// What `String::from_utf8_lossy` decodes from a byte sequence: valid UTF-8
/// decoded, each maximal invalid subpart replaced by U+FFFD.
pub uninterp spec fn utf8_lossy(bytes: Seq<u8>) -> Seq<char>;

/// Bytes that are all ASCII.
pub open spec fn all_ascii(bytes: Seq<u8>) -> bool {
    forall|i: int| 0 <= i < bytes.len() ==> #[trigger] bytes[i] < 0x80
}

/// `String::from_utf8_lossy`, its result taken character by character
/// (`str::chars`, collected). The contract claims that the characters are a
/// function of the bytes alone, named `utf8_lossy`; that valid UTF-8 is decoded
/// as it stands (the documented promise, with vstd's `decode_utf8`); and that
/// ASCII bytes come back as the characters with the same codes. Where invalid
/// sequences are replaced is left unsaid.
#[verifier::external_body]
pub(crate) fn utf8_lossy_chars(bytes: &[u8]) -> (res: Vec<char>)
    ensures
        res@ == utf8_lossy(bytes@),
        vstd::utf8::valid_utf8(bytes@) ==> res@ == vstd::utf8::decode_utf8(bytes@),
        all_ascii(bytes@) ==> res@ == bytes@.map_values(|b: u8| b as char),
{
    String::from_utf8_lossy(bytes).chars().collect()
}

/// Unicode scalar values: the code points that a `char` can hold.
pub open spec fn is_scalar(v: u32) -> bool {
    v <= 0xD7FF || 0xE000 <= v <= 0x10FFFF
}

/// `char::from_u32`. The contract claims what its documentation says: a scalar
/// value gives the character with that code point; a surrogate or a value beyond
/// U+10FFFF gives none.
#[verifier::external_body]
pub(crate) fn char_from_u32(v: u32) -> (res: Option<char>)
    ensures
        is_scalar(v) ==> res == Some(v as char),
        !is_scalar(v) ==> res is None,
{
    char::from_u32(v)
}

/// A UTF-16 code unit that begins a surrogate pair.
pub open spec fn is_high_surrogate(u: u16) -> bool {
    0xD800 <= u <= 0xDBFF
}

/// A UTF-16 code unit that ends a surrogate pair.
pub open spec fn is_low_surrogate(u: u16) -> bool {
    0xDC00 <= u <= 0xDFFF
}

/// The scalar value of a surrogate pair.
pub open spec fn pair_value(high: u16, low: u16) -> u32 {
    (0x10000 + (high - 0xD800) * 0x400 + (low - 0xDC00)) as u32
}

/// UTF-16 decoding in which each unpaired surrogate becomes U+FFFD, as
/// `String::from_utf16_lossy` decodes.
pub open spec fn decode_utf16_lossy(units: Seq<u16>) -> Seq<char>
    decreases units.len(),
{
    if units.len() == 0 {
        Seq::empty()
    } else if is_high_surrogate(units[0]) && units.len() >= 2 && is_low_surrogate(units[1]) {
        seq![pair_value(units[0], units[1]) as char] + decode_utf16_lossy(
            units.subrange(2, units.len() as int),
        )
    } else if is_high_surrogate(units[0]) || is_low_surrogate(units[0]) {
        seq!['\u{FFFD}'] + decode_utf16_lossy(units.drop_first())
    } else {
        seq![(units[0] as u32) as char] + decode_utf16_lossy(units.drop_first())
    }
}

/// Decodes UTF-16 code units, replacing each unpaired surrogate with U+FFFD.
pub fn utf16_lossy_chars(units: &[u16]) -> (res: Vec<char>)
    ensures
        res@ == decode_utf16_lossy(units@),
{
    let n = units.len();
    let mut out: Vec<char> = Vec::new();
    let mut i: usize = 0;
    proof {
        assert(units@.subrange(0, n as int) =~= units@);
        assert(out@ + decode_utf16_lossy(units@) =~= decode_utf16_lossy(units@));
    }
    while i < n
        invariant
            i <= n == units@.len(),
            decode_utf16_lossy(units@) == out@ + decode_utf16_lossy(
                units@.subrange(i as int, n as int),
            ),
        decreases n - i,
    {
        let ghost rest = units@.subrange(i as int, n as int);
        let u = units[i];
        if 0xD800 <= u && u <= 0xDBFF && i + 1 < n && 0xDC00 <= units[i + 1] && units[i + 1]
            <= 0xDFFF {
            let low = units[i + 1];
            let v: u32 = 0x10000 + ((u - 0xD800) as u32) * 0x400 + ((low - 0xDC00) as u32);
            let c = match char_from_u32(v) {
                Some(c) => c,
                None => '\u{FFFD}',
            };
            proof {
                assert(v == pair_value(u, low));
                assert(rest.subrange(2, rest.len() as int) =~= units@.subrange(
                    i + 2,
                    n as int,
                ));
            }
            out.push(c);
            i = i + 2;
            proof {
                assert(out@ + decode_utf16_lossy(units@.subrange(i as int, n as int)) =~= (out@.drop_last()
                    + (seq![c] + decode_utf16_lossy(units@.subrange(i as int, n as int)))));
            }
        } else {
            let c = if 0xD800 <= u && u <= 0xDFFF {
                '\u{FFFD}'
            } else {
                match char_from_u32(u as u32) {
                    Some(c) => c,
                    None => '\u{FFFD}',
                }
            };
            proof {
                assert(rest.drop_first() =~= units@.subrange(i + 1, n as int));
            }
            out.push(c);
            i = i + 1;
            proof {
                assert(out@ + decode_utf16_lossy(units@.subrange(i as int, n as int)) =~= (out@.drop_last()
                    + (seq![c] + decode_utf16_lossy(units@.subrange(i as int, n as int)))));
            }
        }
    }
    proof {
        assert(out@ + decode_utf16_lossy(units@.subrange(n as int, n as int)) =~= out@);
    }
    out
}

/// Collects characters into a `String` (`FromIterator<char> for String`). The
/// contract claims that the string holds exactly those characters, in order.
#[verifier::external_body]
pub(crate) fn string_from_chars(chars: &[char]) -> (res: String)
    ensures
        res@ == chars@,
{
    chars.iter().collect()
}

/// The characters of a string slice, in order.
pub(crate) fn chars_of(s: &str) -> (res: Vec<char>)
    ensures
        res@ == s@,
{
    let n = s.unicode_len();
    let mut out: Vec<char> = Vec::new();
    let mut i: usize = 0;
    while i < n
        invariant
            n == s@.len(),
            i <= n,
            out@ == s@.subrange(0, i as int),
        decreases n - i,
    {
        out.push(s.get_char(i));
        proof {
            assert(out@ =~= s@.subrange(0, i as int + 1));
        }
        i = i + 1;
    }
    proof {
        assert(s@.subrange(0, n as int) =~= s@);
    }
    out
}

/// The UTF-16 code units of one character.
pub open spec fn utf16_units(c: char) -> Seq<u16> {
    let v = c as u32;
    if v < 0x10000 {
        seq![v as u16]
    } else {
        seq![(0xD800 + (v - 0x10000) / 0x400) as u16, (0xDC00 + (v - 0x10000) % 0x400) as u16]
    }
}

/// UTF-16 encoding of a character sequence.
pub open spec fn encode_utf16(s: Seq<char>) -> Seq<u16>
    decreases s.len(),
{
    if s.len() == 0 {
        Seq::empty()
    } else {
        encode_utf16(s.drop_last()) + utf16_units(s.last())
    }
}

/// The UTF-16 encoding of `s` followed by a terminating zero, as Win32 wide-string
/// parameters take it.
pub fn to_wstr(s: &str) -> (res: Vec<u16>)
    ensures
        res@ == encode_utf16(s@).push(0u16),
{
    let cs = chars_of(s);
    let mut out: Vec<u16> = Vec::new();
    let mut k: usize = 0;
    while k < cs.len()
        invariant
            k <= cs.len(),
            cs@ == s@,
            out@ == encode_utf16(cs@.subrange(0, k as int)),
        decreases cs.len() - k,
    {
        let c = cs[k];
        let v: u32 = c as u32;
        if v < 0x10000 {
            out.push(v as u16);
        } else {
            let u: u32 = v - 0x10000;
            out.push((0xD800 + u / 0x400) as u16);
            out.push((0xDC00 + u % 0x400) as u16);
        }
        proof {
            let pre = cs@.subrange(0, k as int + 1);
            assert(pre.drop_last() =~= cs@.subrange(0, k as int));
            assert(pre.last() == c);
        }
        k = k + 1;
    }
    proof {
        assert(cs@.subrange(0, cs@.len() as int) =~= cs@);
    }
    out.push(0u16);
    out
}

/// The code units before the first zero, or all of them if none is zero.
pub open spec fn before_nul(units: Seq<u16>) -> Seq<u16>
    decreases units.len(),
{
    if units.len() == 0 || units[0] == 0 {
        Seq::empty()
    } else {
        seq![units[0]] + before_nul(units.drop_first())
    }
}

proof fn lemma_before_nul(units: Seq<u16>, i: int)
    requires
        0 <= i <= units.len(),
        forall|k: int| 0 <= k < i ==> #[trigger] units[k] != 0,
        i == units.len() || units[i] == 0,
    ensures
        before_nul(units) == units.subrange(0, i),
    decreases i,
{
    if i > 0 {
        lemma_before_nul(units.drop_first(), i - 1);
        assert(seq![units[0]] + units.drop_first().subrange(0, i - 1) =~= units.subrange(0, i));
    } else {
        assert(units.subrange(0, 0) =~= Seq::<u16>::empty());
    }
}

fn wide_chars(buf: &[u16]) -> (res: Vec<char>)
    ensures
        res@ == decode_utf16_lossy(before_nul(buf@)),
{
    let mut i: usize = 0;
    while i < buf.len() && buf[i] != 0
        invariant
            i <= buf.len(),
            forall|k: int| 0 <= k < i ==> #[trigger] buf@[k] != 0,
        decreases buf.len() - i,
    {
        i = i + 1;
    }
    let mut prefix: Vec<u16> = Vec::new();
    let mut k: usize = 0;
    while k < i
        invariant
            k <= i <= buf.len(),
            prefix@ =~= buf@.subrange(0, k as int),
        decreases i - k,
    {
        prefix.push(buf[k]);
        k = k + 1;
    }
    proof {
        lemma_before_nul(buf@, i as int);
    }
    utf16_lossy_chars(prefix.as_slice())
}

/// The text of a fixed-size wide-character buffer: the units before the first
/// zero, decoded with replacement of unpaired surrogates.
pub fn wide(buf: &[u16]) -> (res: String)
    ensures
        res@ == decode_utf16_lossy(before_nul(buf@)),
{
    let cs = wide_chars(buf);
    string_from_chars(cs.as_slice())
}

/// A character with ASCII upper-case letters mapped to lower case (`to_ascii_lowercase`).
pub open spec fn ascii_lower(c: char) -> char {
    if 'A' <= c <= 'Z' {
        ((c as u32) + 32) as char
    } else {
        c
    }
}

/// Two texts equal up to ASCII letter case, as `str::eq_ignore_ascii_case` compares them.
pub open spec fn eq_ignore_ascii_case(a: Seq<char>, b: Seq<char>) -> bool {
    a.len() == b.len() && forall|k: int| 0 <= k < a.len() ==> ascii_lower(#[trigger] a[k])
        == ascii_lower(b[k])
}

fn lower_char(c: char) -> (res: char)
    ensures
        res == ascii_lower(c),
{
    if 'A' <= c && c <= 'Z' {
        (((c as u32) as u8) + 32u8) as char
    } else {
        c
    }
}

/// Whether a fixed-size wide-character buffer names `name`, ignoring ASCII case.
pub fn wide_names(buf: &[u16], name: &str) -> (res: bool)
    ensures
        res == eq_ignore_ascii_case(decode_utf16_lossy(before_nul(buf@)), name@),
{
    let a = wide_chars(buf);
    let b = chars_of(name);
    if a.len() != b.len() {
        return false;
    }
    let mut k: usize = 0;
    while k < a.len()
        invariant
            k <= a.len() == b.len(),
            a@ == decode_utf16_lossy(before_nul(buf@)),
            b@ == name@,
            forall|m: int| 0 <= m < k ==> ascii_lower(#[trigger] a@[m]) == ascii_lower(b@[m]),
        decreases a.len() - k,
    {
        if lower_char(a[k]) != lower_char(b[k]) {
            return false;
        }
        k = k + 1;
    }
    true
}

} // verus!

verus! {

proof fn lemma_encode_prepend(c: char, t: Seq<char>)
    ensures
        encode_utf16(seq![c] + t) == utf16_units(c) + encode_utf16(t),
    decreases t.len(),
{
    let s = seq![c] + t;
    if t.len() == 0 {
        assert(s.drop_last() =~= Seq::<char>::empty());
        assert(s.last() == c);
        assert(encode_utf16(Seq::<char>::empty()) =~= Seq::<u16>::empty());
        assert(encode_utf16(t) =~= Seq::<u16>::empty());
        assert(utf16_units(c) + encode_utf16(t) =~= utf16_units(c));
        assert(encode_utf16(s) =~= Seq::<u16>::empty() + utf16_units(c));
    } else {
        lemma_encode_prepend(c, t.drop_last());
        assert(s.drop_last() =~= seq![c] + t.drop_last());
        assert(s.last() == t.last());
        assert(encode_utf16(s) =~= utf16_units(c) + encode_utf16(t));
    }
}

proof fn lemma_decode_units(c: char, rest: Seq<u16>)
    ensures
        decode_utf16_lossy(utf16_units(c) + rest) == seq![c] + decode_utf16_lossy(rest),
{
    let v = c as u32;
    let u = utf16_units(c) + rest;
    if v < 0x10000 {
        assert(u[0] == v as u16);
        assert(!is_high_surrogate(u[0]) && !is_low_surrogate(u[0]));
        assert(u.drop_first() =~= rest);
        assert(((u[0] as u32) as char) == c);
    } else {
        let q = (v - 0x10000) / 0x400;
        let r = (v - 0x10000) % 0x400;
        assert(0 <= q < 0x400 && 0 <= r < 0x400 && q * 0x400 + r == v - 0x10000) by (nonlinear_arith)
            requires
                0x10000 <= v <= 0x10FFFF,
                q == (v - 0x10000) / 0x400,
                r == (v - 0x10000) % 0x400,
        ;
        assert(u[0] == (0xD800 + q) as u16);
        assert(u[1] == (0xDC00 + r) as u16);
        assert(is_high_surrogate(u[0]) && is_low_surrogate(u[1]));
        assert(pair_value(u[0], u[1]) == v);
        assert(u.subrange(2, u.len() as int) =~= rest);
        assert((pair_value(u[0], u[1]) as char) == c);
    }
}

proof fn lemma_decode_encode(s: Seq<char>)
    ensures
        decode_utf16_lossy(encode_utf16(s)) == s,
    decreases s.len(),
{
    if s.len() == 0 {
        assert(encode_utf16(s) =~= Seq::<u16>::empty());
    } else {
        let t = s.drop_first();
        assert(s =~= seq![s[0]] + t);
        lemma_encode_prepend(s[0], t);
        lemma_decode_units(s[0], encode_utf16(t));
        lemma_decode_encode(t);
    }
}

proof fn lemma_encode_has_no_zero(s: Seq<char>)
    requires
        !s.contains('\0'),
    ensures
        forall|k: int| 0 <= k < encode_utf16(s).len() ==> #[trigger] encode_utf16(s)[k] != 0,
    decreases s.len(),
{
    if s.len() > 0 {
        let d = s.drop_last();
        assert forall|k: int| 0 <= k < d.len() implies d[k] != '\0' by {
            assert(d[k] == s[k]);
        }
        lemma_encode_has_no_zero(d);
        let c = s.last();
        if c == '\0' {
            assert(s[s.len() - 1] == '\0');
            assert(s.contains('\0'));
        }
        let v = c as u32;
        if v == 0 {
            vstd::utf8::char_u32_cast(c, v);
            vstd::utf8::char_u32_cast('\0', 0u32);
        }
        assert(v != 0);
        let un = utf16_units(c);
        assert forall|k: int| 0 <= k < un.len() implies #[trigger] un[k] != 0 by {
            vstd::utf8::char_is_scalar(c);
            if v >= 0x10000 {
                let q = (v - 0x10000) / 0x400;
                let r = (v - 0x10000) % 0x400;
                assert(0 <= q < 0x400 && 0 <= r < 0x400) by (nonlinear_arith)
                    requires
                        0x10000 <= v <= 0x10FFFF,
                        q == (v - 0x10000) / 0x400,
                        r == (v - 0x10000) % 0x400,
                ;
                assert(un[0] == (0xD800 + q) as u16);
                assert(un[1] == (0xDC00 + r) as u16);
            } else {
                assert(un[0] == v as u16);
            }
        }
        assert(encode_utf16(s) == encode_utf16(d) + un);
        assert forall|k: int| 0 <= k < encode_utf16(s).len() implies #[trigger] encode_utf16(s)[k]
            != 0 by {
            if k < encode_utf16(d).len() {
                assert(encode_utf16(s)[k] == encode_utf16(d)[k]);
            } else {
                assert(encode_utf16(s)[k] == un[k - encode_utf16(d).len()]);
            }
        }
    }
}

/// Decoding with `wide` what `to_wstr` encodes gives the text back, with or
/// without the terminating zero, for every text that holds no NUL character.
pub proof fn lemma_wide_of_wstr(s: Seq<char>)
    requires
        !s.contains('\0'),
    ensures
        decode_utf16_lossy(before_nul(encode_utf16(s).push(0u16))) == s,
        decode_utf16_lossy(before_nul(encode_utf16(s))) == s,
{
    let e = encode_utf16(s);
    lemma_encode_has_no_zero(s);
    let p = e.push(0u16);
    assert forall|k: int| 0 <= k < e.len() implies #[trigger] p[k] != 0 by {
        assert(p[k] == e[k]);
    }
    lemma_before_nul(p, e.len() as int);
    assert(p.subrange(0, e.len() as int) =~= e);
    lemma_before_nul(e, e.len() as int);
    assert(e.subrange(0, e.len() as int) =~= e);
    lemma_decode_encode(s);
}

} // verus!

verus! {

/// Whether two texts hold the same characters.
pub fn same_text(a: &str, b: &str) -> (res: bool)
    ensures
        res == (a@ == b@),
{
    let x = chars_of(a);
    let y = chars_of(b);
    if x.len() != y.len() {
        return false;
    }
    let mut k: usize = 0;
    while k < x.len()
        invariant
            x@ == a@,
            y@ == b@,
            x@.len() == y@.len(),
            k <= x@.len(),
            forall|m: int| 0 <= m < k ==> x@[m] == y@[m],
        decreases x.len() - k,
    {
        if x[k] != y[k] {
            assert(a@[k as int] != b@[k as int]);
            return false;
        }
        k = k + 1;
    }
    assert(a@ =~= b@);
    true
}

} // verus!
