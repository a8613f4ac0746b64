//! Character-level helpers: decimal and hexadecimal rendering, radix parsing,
//! Unicode whitespace trimming and UTF-8 length accounting.

use vstd::prelude::*;

verus! {

/// The character for a digit value below sixteen (lower-case hexadecimal).
pub open spec fn digit_char(d: nat) -> char {
    if d < 10 {
        (('0' as u32) + d) as char
    } else {
        (('a' as u32) + (d - 10)) as char
    }
}

/// Decimal spelling of a natural number, most significant digit first.
pub open spec fn decimal_chars(n: nat) -> Seq<char>
    decreases n,
{
    if n < 10 {
        seq![digit_char(n)]
    } else {
        decimal_chars(n / 10).push(digit_char(n % 10))
    }
}

/// Lower-case hexadecimal spelling of a natural number, without prefix.
pub open spec fn hex_chars(n: nat) -> Seq<char>
    decreases n,
{
    if n < 16 {
        seq![digit_char(n)]
    } else {
        hex_chars(n / 16).push(digit_char(n % 16))
    }
}

/// Left-pad with `'0'` up to `width` characters; longer text is unchanged.
pub open spec fn zero_pad(s: Seq<char>, width: nat) -> Seq<char> {
    if s.len() >= width {
        s
    } else {
        Seq::new((width - s.len()) as nat, |_i: int| '0') + s
    }
}

/// `String::push` appends one character to the end of the string.
pub assume_specification[ std::string::String::push ](s: &mut std::string::String, ch: char)
    ensures
        final(s)@ == old(s)@.push(ch),
;

/// `Vec<char>` holding the characters of `s`.
pub fn chars_of(s: &str) -> (out: Vec<char>)
    ensures
        out@ == s@,
{
    let mut out: Vec<char> = Vec::new();
    for c in it: s.chars()
        invariant
            it.seq() == s@,
            out@ == it.seq().take(it.index() as int),
    {
        out.push(c);
    }
    out
}

/// `String` made of the characters of `chars`.
pub fn string_of(chars: &[char]) -> (out: String)
    ensures
        out@ == chars@,
{
    let mut out = String::new();
    let mut i: usize = 0;
    while i < chars.len()
        invariant
            i <= chars.len(),
            out@ == chars@.take(i as int),
        decreases chars.len() - i,
    {
        out.push(chars[i]);
        assert(chars@.take(i + 1) =~= chars@.take(i as int).push(chars@[i as int]));
        i = i + 1;
    }
    assert(chars@.take(chars.len() as int) =~= chars@);
    out
}

fn digit_char_exec(d: u8) -> (c: char)
    requires
        d < 16,
    ensures
        c == digit_char(d as nat),
{
    if d < 10 {
        ((48u8 + d) as char)
    } else {
        ((87u8 + d) as char)
    }
}

/// Decimal rendering of a `u128`.
pub fn u128_decimal(n: u128) -> (s: String)
    ensures
        s@ == decimal_chars(n as nat),
{
    let v = u128_radix_chars(n, 10);
    string_of(v.as_slice())
}

/// Decimal rendering of a `u64`.
pub fn u64_decimal(n: u64) -> (s: String)
    ensures
        s@ == decimal_chars(n as nat),
{
    u128_decimal(n as u128)
}

/// Decimal rendering of a `usize`.
pub fn usize_decimal(n: usize) -> (s: String)
    ensures
        s@ == decimal_chars(n as nat),
{
    u128_decimal(n as u128)
}

pub open spec fn radix_chars(n: nat, radix: nat) -> Seq<char>
    recommends
        radix == 10 || radix == 16,
{
    if radix == 10 {
        decimal_chars(n)
    } else {
        hex_chars(n)
    }
}

fn u128_radix_chars(n: u128, radix: u128) -> (v: Vec<char>)
    requires
        radix == 10 || radix == 16,
    ensures
        v@ == radix_chars(n as nat, radix as nat),
    decreases n,
{
    if n < radix {
        let mut v = Vec::new();
        v.push(digit_char_exec(n as u8));
        v
    } else {
        let mut v = u128_radix_chars(n / radix, radix);
        v.push(digit_char_exec((n % radix) as u8));
        v
    }
}

fn u128_padded(n: u128, radix: u128, width: usize) -> (s: String)
    requires
        radix == 10 || radix == 16,
    ensures
        s@ == zero_pad(radix_chars(n as nat, radix as nat), width as nat),
{
    let digits = u128_radix_chars(n, radix);
    let mut out: Vec<char> = Vec::new();
    if digits.len() < width {
        let pad = width - digits.len();
        let mut i: usize = 0;
        while i < pad
            invariant
                i <= pad,
                out@ == Seq::new(i as nat, |_j: int| '0'),
            decreases pad - i,
        {
            out.push('0');
            i = i + 1;
        }
    }
    let ghost prefix = out@;
    let mut j: usize = 0;
    while j < digits.len()
        invariant
            j <= digits.len(),
            out@ == prefix + digits@.take(j as int),
        decreases digits.len() - j,
    {
        out.push(digits[j]);
        j = j + 1;
        assert(digits@.take(j as int) == digits@.take((j - 1) as int).push(digits@[j - 1]));
    }
    assert(digits@.take(digits@.len() as int) == digits@);
    string_of(out.as_slice())
}


/// Lower-case hexadecimal rendering of `n`, zero padded to `width` digits.
pub fn u128_hex_padded(n: u128, width: usize) -> (s: String)
    ensures
        s@ == zero_pad(hex_chars(n as nat), width as nat),
{
    u128_padded(n, 16, width)
}

/// Decimal rendering of `n`, zero padded to `width` digits.
pub fn u128_decimal_padded(n: u128, width: usize) -> (s: String)
    ensures
        s@ == zero_pad(decimal_chars(n as nat), width as nat),
{
    u128_padded(n, 10, width)
}

/// Whether two strings hold the same characters.
pub fn str_eq(a: &str, b: &str) -> (r: bool)
    ensures
        r == (a@ == b@),
{
    let ac = chars_of(a);
    let bc = chars_of(b);
    if ac.len() != bc.len() {
        return false;
    }
    let mut i: usize = 0;
    while i < ac.len()
        invariant
            i <= ac.len(),
            ac.len() == bc.len(),
            ac@ == a@,
            bc@ == b@,
            forall|j: int| 0 <= j < i ==> ac@[j] == bc@[j],
        decreases ac.len() - i,
    {
        if ac[i] != bc[i] {
            return false;
        }
        i = i + 1;
    }
    assert(a@ =~= b@);
    true
}

/// Value of `c` as a digit of `radix` (2..=16), accepting both letter cases.
pub open spec fn digit_value(c: char, radix: nat) -> Option<nat> {
    let d: int = if '0' <= c && c <= '9' {
        c as int - '0' as int
    } else if 'a' <= c && c <= 'z' {
        c as int - 'a' as int + 10
    } else if 'A' <= c && c <= 'Z' {
        c as int - 'A' as int + 10
    } else {
        -1
    };
    if 0 <= d < radix {
        Some(d as nat)
    } else {
        None
    }
}

/// Every character of `s` is a digit of `radix`.
pub open spec fn all_digits(s: Seq<char>, radix: nat) -> bool {
    forall|i: int| 0 <= i < s.len() ==> (#[trigger] digit_value(s[i], radix)) is Some
}

/// Positional value of a digit string (most significant first).
pub open spec fn digits_value(s: Seq<char>, radix: nat) -> nat
    decreases s.len(),
{
    if s.len() == 0 {
        0
    } else {
        digits_value(s.drop_last(), radix) * radix + match digit_value(s.last(), radix) {
            Some(d) => d,
            None => 0,
        }
    }
}

/// What `u128::from_str_radix(s, radix)` returns: an optional `+` sign, then
/// at least one digit of `radix`, and a value that fits in 128 bits.
pub open spec fn parse_u128_radix_spec(s: Seq<char>, radix: nat) -> Option<u128> {
    let body = if s.len() > 0 && s[0] == '+' {
        s.drop_first()
    } else {
        s
    };
    if body.len() == 0 || !all_digits(body, radix) || digits_value(body, radix) > u128::MAX {
        None
    } else {
        Some(digits_value(body, radix) as u128)
    }
}

/// The decimal spelling of `n` is canonical (digits only, no leading zero
/// unless it is `0`) and its positional value is `n`.
pub proof fn lemma_decimal_chars(n: nat)
    ensures
        decimal_chars(n).len() > 0,
        forall|i: int| 0 <= i < decimal_chars(n).len() ==> '0' <= #[trigger] decimal_chars(n)[i] <= '9',
        decimal_chars(n).len() > 1 ==> decimal_chars(n)[0] != '0',
        n > 0 ==> decimal_chars(n)[0] != '0',
        digits_value(decimal_chars(n), 10) == n,
    decreases n,
{
    if n < 10 {
        assert(digit_value(digit_char(n), 10) == Some(n));
        assert(decimal_chars(n).drop_last() =~= Seq::<char>::empty());
        assert(digits_value(Seq::<char>::empty(), 10) == 0);
        assert(digits_value(decimal_chars(n), 10) == 0 * 10 + n);
    } else {
        lemma_decimal_chars(n / 10);
        let s = decimal_chars(n);
        assert(s.drop_last() == decimal_chars(n / 10));
        assert(digit_value(digit_char(n % 10), 10) == Some(n % 10));
        assert(s[0] == decimal_chars(n / 10)[0]);
        assert(digits_value(s, 10) == digits_value(decimal_chars(n / 10), 10) * 10 + n % 10);
        assert((n / 10) * 10 + n % 10 == n);
    }
}

/// A canonical decimal spelling (digits only, no leading zero unless it is
/// `0`) is the decimal spelling of its value.
pub proof fn lemma_canonical_decimal(s: Seq<char>)
    requires
        s.len() > 0,
        forall|i: int| 0 <= i < s.len() ==> '0' <= #[trigger] s[i] <= '9',
        !(s.len() > 1 && s[0] == '0'),
    ensures
        decimal_chars(digits_value(s, 10)) == s,
        s.len() > 1 ==> digits_value(s, 10) >= 10,
        s[0] != '0' ==> digits_value(s, 10) >= 1,
    decreases s.len(),
{
    let c = s.last();
    let d: int = c as int - '0' as int;
    assert(0 <= d < 10);
    assert(digit_value(c, 10) == Some(d as nat));
    assert(digit_char(d as nat) == c);
    if s.len() == 1 {
        assert(s.drop_last() =~= Seq::<char>::empty());
        assert(digits_value(s.drop_last(), 10) == 0);
        assert(digits_value(s, 10) == d);
        assert(decimal_chars(d as nat) =~= seq![c]);
        assert(s =~= seq![c]);
    } else {
        let p = s.drop_last();
        assert(p[0] == s[0]);
        lemma_canonical_decimal(p);
        let v = digits_value(p, 10);
        assert(v >= 1);
        let n = v * 10 + d;
        assert(digits_value(s, 10) == n);
        assert(n / 10 == v && n % 10 == d && n >= 10) by (nonlinear_arith)
            requires
                0 <= d < 10,
                v >= 1,
                n == v * 10 + d,
        ;
        assert(decimal_chars(n as nat) == decimal_chars(v).push(digit_char(d as nat)));
        assert(s =~= p.push(c));
    }
}

proof fn lemma_digits_value_monotone(s: Seq<char>, radix: nat, k: int)
    requires
        0 <= k <= s.len(),
        radix >= 1,
    ensures
        digits_value(s.take(k), radix) <= digits_value(s, radix),
    decreases s.len() - k,
{
    if k < s.len() {
        lemma_digits_value_monotone(s, radix, k + 1);
        assert(s.take(k + 1).drop_last() == s.take(k));
        let v = digits_value(s.take(k), radix);
        assert(v * radix >= v) by (nonlinear_arith)
            requires
                radix >= 1,
        ;
    } else {
        assert(s.take(k) == s);
    }
}

fn digit_value_exec(c: char, radix: u32) -> (r: Option<u32>)
    requires
        2 <= radix <= 16,
    ensures
        r matches Some(d) ==> digit_value(c, radix as nat) == Some(d as nat),
        r is None ==> digit_value(c, radix as nat) is None,
{
    let d: i64 = if '0' <= c && c <= '9' {
        (c as u32 - 48) as i64
    } else if 'a' <= c && c <= 'z' {
        (c as u32 - 97 + 10) as i64
    } else if 'A' <= c && c <= 'Z' {
        (c as u32 - 65 + 10) as i64
    } else {
        -1
    };
    if 0 <= d && d < radix as i64 {
        Some(d as u32)
    } else {
        None
    }
}

/// `u128::from_str_radix` over a character sequence, for radix 2..=16.
pub fn parse_u128_radix(s: &[char], radix: u32) -> (r: Option<u128>)
    requires
        2 <= radix <= 16,
    ensures
        r == parse_u128_radix_spec(s@, radix as nat),
{
    let start: usize = if s.len() > 0 && s[0] == '+' {
        1
    } else {
        0
    };
    let ghost body = if s@.len() > 0 && s@[0] == '+' {
        s@.drop_first()
    } else {
        s@
    };
    assert(body == s@.subrange(start as int, s@.len() as int));
    if start >= s.len() {
        return None;
    }
    let mut value: u128 = 0;
    let mut i: usize = start;
    while i < s.len()
        invariant
            start <= i <= s.len(),
            body == s@.subrange(start as int, s@.len() as int),
            body == (if s@.len() > 0 && s@[0] == '+' {
                s@.drop_first()
            } else {
                s@
            }),
            all_digits(body.take(i - start), radix as nat),
            value as nat == digits_value(body.take(i - start), radix as nat),
            2 <= radix <= 16,
        decreases s.len() - i,
    {
        let ghost k = (i - start) as int;
        assert(body.take(k + 1).drop_last() == body.take(k));
        assert(body[k] == s@[i as int]);
        match digit_value_exec(s[i], radix) {
            None => {
                assert(!all_digits(body, radix as nat)) by {
                    assert(digit_value(body[k], radix as nat) is None);
                }
                return None;
            }
            Some(d) => {
                let next_opt = value.checked_mul(radix as u128);
                match next_opt {
                    None => {
                        proof {
                            lemma_digits_value_monotone(body, radix as nat, k + 1);
                            assert(value * radix > u128::MAX);
                        }
                        return None;
                    }
                    Some(m) => {
                        match m.checked_add(d as u128) {
                            None => {
                                proof {
                                    lemma_digits_value_monotone(body, radix as nat, k + 1);
                                }
                                return None;
                            }
                            Some(v) => {
                                value = v;
                            }
                        }
                    }
                }
            }
        }
        i = i + 1;
        proof {
            let kk = (i - start) as int;
            assert forall|j: int| 0 <= j < body.take(kk).len() implies (#[trigger] digit_value(
                body.take(kk)[j],
                radix as nat,
            )) is Some by {
                if j < kk - 1 {
                    assert(body.take(kk)[j] == body.take(kk - 1)[j]);
                }
            }
        }
    }
    assert(body.take((s@.len() - start) as int) == body);
    Some(value)
}


/// The Unicode `White_Space` property, which `char::is_whitespace` reports.
pub open spec fn is_unicode_whitespace(c: char) -> bool {
    ||| ('\u{9}' <= c && c <= '\u{d}')
    ||| c == ' '
    ||| c == '\u{85}'
    ||| c == '\u{a0}'
    ||| c == '\u{1680}'
    ||| ('\u{2000}' <= c && c <= '\u{200a}')
    ||| c == '\u{2028}'
    ||| c == '\u{2029}'
    ||| c == '\u{202f}'
    ||| c == '\u{205f}'
    ||| c == '\u{3000}'
}

pub fn is_unicode_whitespace_exec(c: char) -> (b: bool)
    ensures
        b == is_unicode_whitespace(c),
{
    ('\u{9}' <= c && c <= '\u{d}') || c == ' ' || c == '\u{85}' || c == '\u{a0}' || c
        == '\u{1680}' || ('\u{2000}' <= c && c <= '\u{200a}') || c == '\u{2028}' || c
        == '\u{2029}' || c == '\u{202f}' || c == '\u{205f}' || c == '\u{3000}'
}

/// `s` without leading whitespace (`str::trim_start`).
pub open spec fn trim_start_chars(s: Seq<char>) -> Seq<char>
    decreases s.len(),
{
    if s.len() > 0 && is_unicode_whitespace(s[0]) {
        trim_start_chars(s.drop_first())
    } else {
        s
    }
}

/// `s` without trailing whitespace (`str::trim_end`).
pub open spec fn trim_end_chars(s: Seq<char>) -> Seq<char>
    decreases s.len(),
{
    if s.len() > 0 && is_unicode_whitespace(s.last()) {
        trim_end_chars(s.drop_last())
    } else {
        s
    }
}

/// `s` without leading and trailing whitespace (`str::trim`).
pub open spec fn trim_chars(s: Seq<char>) -> Seq<char> {
    trim_end_chars(trim_start_chars(s))
}

pub proof fn lemma_trim_start_skip(s: Seq<char>, a: int)
    requires
        0 <= a <= s.len(),
        forall|j: int| 0 <= j < a ==> is_unicode_whitespace(#[trigger] s[j]),
        a == s.len() || !is_unicode_whitespace(s[a]),
    ensures
        trim_start_chars(s) == s.subrange(a, s.len() as int),
    decreases a,
{
    if a > 0 {
        let t = s.drop_first();
        assert forall|j: int| 0 <= j < a - 1 implies is_unicode_whitespace(#[trigger] t[j]) by {
            assert(t[j] == s[j + 1]);
        }
        if a - 1 < t.len() {
            assert(t[a - 1] == s[a]);
        }
        lemma_trim_start_skip(t, a - 1);
        assert(t.subrange(a - 1, t.len() as int) == s.subrange(a, s.len() as int));
    } else {
        assert(s.subrange(0, s.len() as int) == s);
    }
}

proof fn lemma_trim_end_skip(s: Seq<char>, b: int)
    requires
        0 <= b <= s.len(),
        forall|j: int| b <= j < s.len() ==> is_unicode_whitespace(#[trigger] s[j]),
        b == 0 || !is_unicode_whitespace(s[b - 1]),
    ensures
        trim_end_chars(s) == s.subrange(0, b),
    decreases s.len() - b,
{
    if b < s.len() {
        let t = s.drop_last();
        assert forall|j: int| b <= j < t.len() implies is_unicode_whitespace(#[trigger] t[j]) by {
            assert(t[j] == s[j]);
        }
        if b > 0 {
            assert(t[b - 1] == s[b - 1]);
        }
        lemma_trim_end_skip(t, b);
        assert(t.subrange(0, b) == s.subrange(0, b));
    } else {
        assert(s.subrange(0, b) == s);
    }
}

/// `str::trim` over characters.
pub fn trim(s: &[char]) -> (out: Vec<char>)
    ensures
        out@ == trim_chars(s@),
{
    let mut a: usize = 0;
    while a < s.len() && is_unicode_whitespace_exec(s[a])
        invariant
            a <= s.len(),
            forall|j: int| 0 <= j < a ==> is_unicode_whitespace(#[trigger] s@[j]),
        decreases s.len() - a,
    {
        a = a + 1;
    }
    proof {
        lemma_trim_start_skip(s@, a as int);
    }
    let ghost t = s@.subrange(a as int, s@.len() as int);
    let mut b: usize = s.len();
    while b > a && is_unicode_whitespace_exec(s[b - 1])
        invariant
            a <= b <= s.len(),
            forall|j: int| b <= j < s.len() ==> is_unicode_whitespace(#[trigger] s@[j]),
        decreases b - a,
    {
        b = b - 1;
    }
    proof {
        assert forall|j: int| (b - a) <= j < t.len() implies is_unicode_whitespace(
            #[trigger] t[j],
        ) by {
            assert(t[j] == s@[j + a]);
        }
        if b > a {
            assert(t[b - a - 1] == s@[b - 1]);
        }
        lemma_trim_end_skip(t, (b - a) as int);
        assert(t.subrange(0, (b - a) as int) == s@.subrange(a as int, b as int));
    }
    let mut out: Vec<char> = Vec::new();
    let mut i: usize = a;
    while i < b
        invariant
            a <= i <= b,
            b <= s.len(),
            out@ == s@.subrange(a as int, i as int),
        decreases b - i,
    {
        out.push(s[i]);
        i = i + 1;
        assert(s@.subrange(a as int, i as int) == s@.subrange(a as int, (i - 1) as int).push(
            s@[i - 1],
        ));
    }
    out
}

/// What `str::to_lowercase` returns (Unicode case mapping).
pub uninterp spec fn lowercase_chars(s: Seq<char>) -> Seq<char>;

/// Calls `str::to_lowercase`: the result is the Unicode lower-case mapping
/// of the input, named `lowercase_chars`; the mapping tables are not restated.
#[verifier::external_body]
pub(crate) fn to_lowercase(s: &str) -> (out: String)
    ensures
        out@ == lowercase_chars(s@),
{
    s.to_lowercase()
}

/// UTF-8 encoded length of one character.
pub open spec fn char_utf8_len(c: char) -> nat {
    if (c as u32) < 0x80 {
        1
    } else if (c as u32) < 0x800 {
        2
    } else if (c as u32) < 0x10000 {
        3
    } else {
        4
    }
}

/// UTF-8 encoded length of a character sequence (`str::len`).
pub open spec fn utf8_len(s: Seq<char>) -> nat
    decreases s.len(),
{
    if s.len() == 0 {
        0
    } else {
        utf8_len(s.drop_last()) + char_utf8_len(s.last())
    }
}

pub fn char_utf8_len_exec(c: char) -> (n: usize)
    ensures
        n == char_utf8_len(c),
{
    let v = c as u32;
    if v < 0x80 {
        1
    } else if v < 0x800 {
        2
    } else if v < 0x10000 {
        3
    } else {
        4
    }
}

pub proof fn lemma_utf8_len_prefix(s: Seq<char>, k: int)
    requires
        0 <= k <= s.len(),
    ensures
        utf8_len(s.take(k)) <= utf8_len(s),
        utf8_len(s) <= 4 * s.len(),
    decreases s.len(),
{
    if s.len() > 0 {
        if k < s.len() {
            assert(s.drop_last().take(k) == s.take(k));
            lemma_utf8_len_prefix(s.drop_last(), k);
        } else {
            assert(s.take(k) == s);
            lemma_utf8_len_prefix(s.drop_last(), 0);
        }
    } else {
        assert(s.take(k) == s);
    }
}

/// The UTF-8 length of a concatenation is the sum of the lengths.
pub proof fn lemma_utf8_len_concat(a: Seq<char>, b: Seq<char>)
    ensures
        utf8_len(a + b) == utf8_len(a) + utf8_len(b),
    decreases b.len(),
{
    if b.len() > 0 {
        assert((a + b).drop_last() == a + b.drop_last());
        lemma_utf8_len_concat(a, b.drop_last());
    } else {
        assert(a + b == a);
    }
}

/// `utf8_len` counts the bytes of the UTF-8 encoding.
pub proof fn lemma_encode_utf8_len(s: Seq<char>)
    ensures
        vstd::utf8::encode_utf8(s).len() == utf8_len(s),
    decreases s.len(),
{
    if s.len() > 0 {
        lemma_encode_utf8_len(s.drop_first());
        assert(s == seq![s[0]] + s.drop_first());
        lemma_utf8_len_concat(seq![s[0]], s.drop_first());
        vstd::utf8::char_is_scalar(s[0]);
        let v = s[0] as u32;
        assert(seq![s[0]].last() == s[0]);
        assert(utf8_len(seq![s[0]].drop_last()) == 0);
        assert(utf8_len(seq![s[0]]) == char_utf8_len(s[0]));
        assert(vstd::utf8::encode_scalar(v).len() == char_utf8_len(s[0]));
        assert(vstd::utf8::encode_utf8(s) == vstd::utf8::encode_scalar(v) + vstd::utf8::encode_utf8(
            s.drop_first(),
        ));
    }
}

/// Byte length of a character sequence, saturating at `usize::MAX`.
pub fn utf8_len_exec(s: &[char]) -> (n: usize)
    ensures
        n == if utf8_len(s@) > usize::MAX { usize::MAX as nat } else { utf8_len(s@) },
{
    let mut total: usize = 0;
    let mut i: usize = 0;
    while i < s.len()
        invariant
            i <= s.len(),
            total == if utf8_len(s@.take(i as int)) > usize::MAX {
                usize::MAX as nat
            } else {
                utf8_len(s@.take(i as int))
            },
        decreases s.len() - i,
    {
        assert(s@.take(i + 1).drop_last() == s@.take(i as int));
        let c = char_utf8_len_exec(s[i]);
        total = total.saturating_add(c);
        i = i + 1;
    }
    assert(s@.take(s@.len() as int) == s@);
    total
}


/// `needle` occurs in `hay` at position `i`.
pub open spec fn occurs_at(hay: Seq<char>, needle: Seq<char>, i: int) -> bool {
    0 <= i && i + needle.len() <= hay.len() && hay.subrange(i, i + needle.len()) == needle
}

/// `needle` occurs somewhere in `hay` (`str::contains`).
pub open spec fn contains_seq(hay: Seq<char>, needle: Seq<char>) -> bool {
    exists|i: int| occurs_at(hay, needle, i)
}

/// A string contains each of its suffixes and prefixes, itself included:
/// `str::contains` finds a needle that ends or starts the haystack.
pub proof fn law_contains_suffixes_and_prefixes(p: Seq<char>, f: Seq<char>)
    ensures
        contains_seq(p + f, f),
        contains_seq(f + p, f),
        contains_seq(f, f),
{
    assert((p + f).subrange(p.len() as int, (p.len() + f.len()) as int) =~= f);
    assert(occurs_at(p + f, f, p.len() as int));
    assert((f + p).subrange(0, f.len() as int) =~= f);
    assert(occurs_at(f + p, f, 0));
    assert(f.subrange(0, f.len() as int) =~= f);
    assert(occurs_at(f, f, 0));
}

/// A needle found in a haystack is no longer than it, and each of its
/// characters occurs in it.
pub proof fn law_contained_needle_fits(hay: Seq<char>, needle: Seq<char>)
    requires
        contains_seq(hay, needle),
    ensures
        needle.len() <= hay.len(),
        forall|k: int| 0 <= k < needle.len() ==> hay.contains(#[trigger] needle[k]),
{
    let i = choose|i: int| occurs_at(hay, needle, i);
    assert forall|k: int| 0 <= k < needle.len() implies hay.contains(#[trigger] needle[k]) by {
        assert(hay.subrange(i, i + needle.len())[k] == hay[i + k]);
    }
}

/// Whether `needle` occurs in `hay`.
pub fn contains_str(hay: &str, needle: &str) -> (b: bool)
    ensures
        b == contains_seq(hay@, needle@),
{
    let h = chars_of(hay);
    let n = chars_of(needle);
    if n.len() > h.len() {
        proof {
            assert forall|i: int| !occurs_at(hay@, needle@, i) by {}
        }
        return false;
    }
    let last = h.len() - n.len();
    let mut i: usize = 0;
    let mut stop = false;
    while !stop
        invariant
            h@ == hay@,
            n@ == needle@,
            last == h.len() - n.len(),
            i <= last,
            forall|j: int| 0 <= j < i ==> !occurs_at(hay@, needle@, j),
            stop ==> i == last && !occurs_at(hay@, needle@, i as int),
        decreases last - i, if stop { 0int } else { 1int },
    {
        let mut k: usize = 0;
        let mut same = true;
        while k < n.len() && same
            invariant
                h@ == hay@,
                n@ == needle@,
                i + n.len() <= h.len(),
                k <= n.len(),
                same ==> forall|m: int| 0 <= m < k ==> h@[i + m] == n@[m],
                !same ==> !occurs_at(hay@, needle@, i as int),
            decreases n.len() - k, if same { 1int } else { 0int },
        {
            if h[i + k] != n[k] {
                same = false;
                assert(hay@.subrange(i as int, i + needle@.len())[k as int] != needle@[k as int]);
            } else {
                k = k + 1;
            }
        }
        if same {
            assert(hay@.subrange(i as int, i + needle@.len()) =~= needle@);
            assert(occurs_at(hay@, needle@, i as int));
            return true;
        }
        if i == last {
            stop = true;
        } else {
            i = i + 1;
        }
    }
    proof {
        assert forall|j: int| !occurs_at(hay@, needle@, j) by {
            if occurs_at(hay@, needle@, j) {
                assert(0 <= j <= i);
            }
        }
    }
    false
}

} // verus!
