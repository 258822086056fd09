//! Character-level building blocks shared by the key decoder and encoder:
//! decimal numerals, searches for a separator, literal comparisons and the
//! UTF-8 encoding of a single `char`.
use vstd::prelude::*;
use vstd::utf8::*;

verus! {

// ---------------------------------------------------------------------------
// Decimal numerals
// ---------------------------------------------------------------------------

/// An ASCII decimal digit.
pub open spec fn is_digit(c: char) -> bool {
    '0' <= c <= '9'
}

/// The value of an ASCII decimal digit.
pub open spec fn digit_value(c: char) -> nat {
    (c as int - 48) as nat
}

/// Every character of `s` is an ASCII decimal digit (true of the empty text).
pub open spec fn all_digits(s: Seq<char>) -> bool {
    forall|i: int| 0 <= i < s.len() ==> is_digit(#[trigger] s[i])
}

/// The number that a text of decimal digits denotes, most significant first.
pub open spec fn digits_value(s: Seq<char>) -> nat
    decreases s.len(),
{
    if s.len() == 0 {
        0
    } else {
        digits_value(s.drop_last()) * 10 + digit_value(s.last())
    }
}

/// The character for the decimal digit `d` (`d < 10`).
pub open spec fn digit_char(d: nat) -> char {
    (d + 48) as char
}

/// The shortest decimal numeral for `n`, as `{}` formats an unsigned integer.
pub open spec fn decimal(n: nat) -> Seq<char>
    decreases n,
{
    if n < 10 {
        seq![digit_char(n)]
    } else {
        decimal(n / 10).push(digit_char(n % 10))
    }
}

/// What `str::parse` gives for an unsigned integer type whose largest value is
/// `max`: an optional leading `+`, then at least one ASCII digit and nothing else,
/// denoting a number no larger than `max`.
pub open spec fn parse_unsigned(s: Seq<char>, max: nat) -> Option<nat> {
    let d = if s.len() > 0 && s[0] == '+' {
        s.drop_first()
    } else {
        s
    };
    if d.len() > 0 && all_digits(d) && digits_value(d) <= max {
        Some(digits_value(d))
    } else {
        None
    }
}

/// What `str::parse::<i32>` gives: an optional `+` or `-` sign, then at least
/// one ASCII digit and nothing else, denoting a number in the range of `i32`.
pub open spec fn parse_i32(s: Seq<char>) -> Option<int> {
    let negative = s.len() > 0 && s[0] == '-';
    let d = if s.len() > 0 && (s[0] == '+' || s[0] == '-') {
        s.drop_first()
    } else {
        s
    };
    let v: int = if negative {
        -(digits_value(d) as int)
    } else {
        digits_value(d) as int
    };
    if d.len() > 0 && all_digits(d) && i32::MIN <= v <= i32::MAX {
        Some(v)
    } else {
        None
    }
}

/// The bytes of a text of ASCII characters, one byte per character.
pub open spec fn ascii_bytes(s: Seq<char>) -> Seq<u8> {
    Seq::new(s.len(), |i: int| s[i] as u8)
}

pub proof fn lemma_digit_char(d: nat)
    requires
        d < 10,
    ensures
        is_digit(digit_char(d)),
        digit_value(digit_char(d)) == d,
        digit_char(d) as u32 == d + 48,
{
}

/// A decimal numeral is a non-empty text of ASCII digits that denotes its number.
pub proof fn lemma_decimal(n: nat)
    ensures
        decimal(n).len() > 0,
        all_digits(decimal(n)),
        is_ascii_chars(decimal(n)),
        digits_value(decimal(n)) == n,
        n < 10 ==> decimal(n) == seq![digit_char(n)],
    decreases n,
{
    lemma_digit_char(n % 10);
    if n < 10 {
        assert(decimal(n).drop_last() =~= Seq::<char>::empty());
        assert(digits_value(Seq::<char>::empty()) == 0);
    } else {
        lemma_decimal(n / 10);
        assert((n / 10) * 10 + n % 10 == n) by (nonlinear_arith);
        let d = decimal(n);
        assert(d.drop_last() =~= decimal(n / 10));
        assert(d.last() == digit_char(n % 10));
        assert(digits_value(d) == digits_value(d.drop_last()) * 10 + digit_value(d.last()));
        assert(digits_value(d.drop_last()) == n / 10);
        assert(digit_value(d.last()) == n % 10);
        assert(all_digits(d)) by {
            assert forall|i: int| 0 <= i < d.len() implies is_digit(#[trigger] d[i]) by {
                if i < d.len() - 1 {
                    assert(d[i] == decimal(n / 10)[i]);
                }
            }
        }
    }
}

/// The value of a text of digits is at least the value of any of its prefixes.
pub proof fn lemma_digits_value_prefix(s: Seq<char>, k: int)
    requires
        0 <= k <= s.len(),
        all_digits(s),
    ensures
        digits_value(s.take(k)) <= digits_value(s),
    decreases s.len(),
{
    if k < s.len() {
        assert(all_digits(s.drop_last()));
        assert(s.drop_last().take(k) =~= s.take(k));
        lemma_digits_value_prefix(s.drop_last(), k);
    } else {
        assert(s.take(k) =~= s);
    }
}

/// Parsing the decimal numeral of a number gives the number back.
pub proof fn lemma_parse_decimal(n: nat, max: nat)
    requires
        n <= max,
    ensures
        parse_unsigned(decimal(n), max) == Some(n),
{
    lemma_decimal(n);
    lemma_digit_char(if n < 10 { n } else { n % 10 });
    let d = decimal(n);
    assert(is_digit(d[0]));
}

/// For an ASCII text, `ascii_bytes` is its UTF-8 encoding, which decodes back to it.
pub proof fn lemma_ascii_bytes_utf8(s: Seq<char>)
    requires
        is_ascii_chars(s),
    ensures
        ascii_bytes(s) == encode_utf8(s),
        decode_utf8(ascii_bytes(s)) == s,
{
    is_ascii_chars_encode_utf8(s);
    assert(ascii_bytes(s) =~= encode_utf8(s));
    encode_utf8_decode_utf8(s);
}

/// Appends the decimal numeral of `n` to `out`.
pub fn push_decimal(out: &mut Vec<char>, n: u32)
    ensures
        final(out)@ == old(out)@ + decimal(n as nat),
    decreases n,
{
    if n >= 10 {
        push_decimal(out, n / 10);
    }
    let d: u32 = n % 10;
    let c: char = ((48 + d) as u8) as char;
    proof {
        lemma_digit_char(d as nat);
        assert(c == digit_char(d as nat));
    }
    out.push(c);
    proof {
        if n >= 10 {
            assert(decimal(n as nat) == decimal((n / 10) as nat).push(digit_char((n % 10) as nat)));
        } else {
            assert(decimal(n as nat) =~= seq![c]);
        }
        assert(final(out)@ =~= old(out)@ + decimal(n as nat));
    }
}

/// The bytes of an ASCII text, one per character.
pub fn ascii_to_bytes(t: &Vec<char>) -> (r: Vec<u8>)
    requires
        is_ascii_chars(t@),
    ensures
        r@ == ascii_bytes(t@),
{
    let mut r: Vec<u8> = Vec::new();
    let mut i: usize = 0;
    while i < t.len()
        invariant
            0 <= i <= t@.len(),
            is_ascii_chars(t@),
            r@ =~= ascii_bytes(t@.take(i as int)),
        decreases t@.len() - i,
    {
        let c = t[i];
        assert('\0' <= t@[i as int] <= '\u{7f}');
        r.push(c as u8);
        assert(ascii_bytes(t@.take(i + 1)) =~= ascii_bytes(t@.take(i as int)).push(c as u8));
        i = i + 1;
    }
    assert(t@.take(i as int) =~= t@);
    r
}

/// The value of `c` as a decimal digit, if it is one.
pub fn digit_of(c: char) -> (r: Option<u32>)
    ensures
        r == (if is_digit(c) { Some(digit_value(c) as u32) } else { None }),
{
    let cu = c as u32;
    if cu < 48 || cu > 57 {
        None
    } else {
        Some(cu - 48)
    }
}

/// A non-empty text of digits whose value is at most `max`.
pub open spec fn digits_at_most(d: Seq<char>, max: nat) -> Option<nat> {
    if d.len() > 0 && all_digits(d) && digits_value(d) <= max {
        Some(digits_value(d))
    } else {
        None
    }
}

/// Reads `v[lo..hi]` as a non-empty run of decimal digits denoting at most `max`.
pub fn parse_digits_in(v: &Vec<char>, lo: usize, hi: usize, max: u32) -> (r: Option<u32>)
    requires
        lo <= hi <= v.len(),
    ensures
        match r {
            Some(n) => digits_at_most(v@.subrange(lo as int, hi as int), max as nat) == Some(
                n as nat,
            ),
            None => digits_at_most(v@.subrange(lo as int, hi as int), max as nat) is None,
        },
{
    let ghost d = v@.subrange(lo as int, hi as int);
    if lo >= hi {
        return None;
    }
    let mut i = lo;
    let mut acc: u64 = 0;
    while i < hi
        invariant
            lo <= i <= hi <= v.len(),
            lo < hi,
            d == v@.subrange(lo as int, hi as int),
            all_digits(v@.subrange(lo as int, i as int)),
            acc == digits_value(v@.subrange(lo as int, i as int)),
            acc <= max,
        decreases hi - i,
    {
        let c = v[i];
        let dv = match digit_of(c) {
            Some(x) => x,
            None => {
                assert(!is_digit(d[i - lo]));
                return None;
            },
        };
        let ghost prefix = v@.subrange(lo as int, i as int + 1);
        assert(prefix.drop_last() =~= v@.subrange(lo as int, i as int));
        assert(prefix.last() == c);
        assert(all_digits(prefix));
        acc = acc * 10 + dv as u64;
        assert(acc == digits_value(prefix));
        if acc > max as u64 {
            proof {
                if all_digits(d) {
                    assert(d.take(i - lo + 1) =~= prefix);
                    lemma_digits_value_prefix(d, i - lo + 1);
                }
            }
            return None;
        }
        i = i + 1;
    }
    assert(v@.subrange(lo as int, i as int) =~= d);
    Some(acc as u32)
}

/// Parses the characters `v[lo..hi]` as `str::parse` parses an unsigned integer
/// no larger than `max`.
pub fn parse_unsigned_in(v: &Vec<char>, lo: usize, hi: usize, max: u32) -> (r: Option<u32>)
    requires
        lo <= hi <= v.len(),
    ensures
        match r {
            Some(n) => parse_unsigned(v@.subrange(lo as int, hi as int), max as nat) == Some(
                n as nat,
            ),
            None => parse_unsigned(v@.subrange(lo as int, hi as int), max as nat) is None,
        },
{
    let ghost s = v@.subrange(lo as int, hi as int);
    let start = if lo < hi && v[lo] == '+' {
        lo + 1
    } else {
        lo
    };
    assert(v@.subrange(start as int, hi as int) =~= (if s.len() > 0 && s[0] == '+' {
        s.drop_first()
    } else {
        s
    }));
    parse_digits_in(v, start, hi, max)
}

/// Parses the characters `v[lo..hi]` as `str::parse::<i32>` does.
pub fn parse_i32_in(v: &Vec<char>, lo: usize, hi: usize) -> (r: Option<i32>)
    requires
        lo <= hi <= v.len(),
    ensures
        match r {
            Some(n) => parse_i32(v@.subrange(lo as int, hi as int)) == Some(n as int),
            None => parse_i32(v@.subrange(lo as int, hi as int)) is None,
        },
{
    let ghost s = v@.subrange(lo as int, hi as int);
    let negative = lo < hi && v[lo] == '-';
    let start = if lo < hi && (v[lo] == '+' || v[lo] == '-') {
        lo + 1
    } else {
        lo
    };
    assert(v@.subrange(start as int, hi as int) =~= (if s.len() > 0 && (s[0] == '+' || s[0]
        == '-') {
        s.drop_first()
    } else {
        s
    }));
    let limit: u32 = if negative {
        2147483648
    } else {
        2147483647
    };
    match parse_digits_in(v, start, hi, limit) {
        Some(m) => {
            if negative {
                if m == 2147483648 {
                    Some(i32::MIN)
                } else {
                    Some(-(m as i32))
                }
            } else {
                Some(m as i32)
            }
        },
        None => None,
    }
}

// ---------------------------------------------------------------------------
// Searching for a character
// ---------------------------------------------------------------------------

/// The first index at or after `i` where `s` holds `c`.
pub open spec fn index_of_from(s: Seq<char>, c: char, i: int) -> Option<int>
    decreases s.len() - i,
{
    if i < 0 || i >= s.len() {
        None
    } else if s[i] == c {
        Some(i)
    } else {
        index_of_from(s, c, i + 1)
    }
}

/// The first index where `s` holds `c`.
pub open spec fn first_index_of(s: Seq<char>, c: char) -> Option<int> {
    index_of_from(s, c, 0)
}

/// The last index below `i` where `s` holds `c`.
pub open spec fn index_of_before(s: Seq<char>, c: char, i: int) -> Option<int>
    decreases i,
{
    if i <= 0 || i > s.len() {
        None
    } else if s[i - 1] == c {
        Some(i - 1)
    } else {
        index_of_before(s, c, i - 1)
    }
}

/// The last index where `s` holds `c`.
pub open spec fn last_index_of(s: Seq<char>, c: char) -> Option<int> {
    index_of_before(s, c, s.len() as int)
}

pub proof fn lemma_index_of_from(s: Seq<char>, c: char, i: int)
    requires
        0 <= i <= s.len(),
    ensures
        match index_of_from(s, c, i) {
            Some(k) => i <= k < s.len() && s[k] == c && forall|j: int|
                i <= j < k ==> s[j] != c,
            None => forall|j: int| i <= j < s.len() ==> s[j] != c,
        },
    decreases s.len() - i,
{
    if i < s.len() && s[i] != c {
        lemma_index_of_from(s, c, i + 1);
    }
}

pub proof fn lemma_index_of_before(s: Seq<char>, c: char, i: int)
    requires
        0 <= i <= s.len(),
    ensures
        match index_of_before(s, c, i) {
            Some(k) => 0 <= k < i && s[k] == c && forall|j: int| k < j < i ==> s[j] != c,
            None => forall|j: int| 0 <= j < i ==> s[j] != c,
        },
    decreases i,
{
    if i > 0 && s[i - 1] != c {
        lemma_index_of_before(s, c, i - 1);
    }
}

/// A search from the front is characterised by where it stops.
pub proof fn lemma_first_index_is(s: Seq<char>, c: char, k: Option<int>)
    requires
        match k {
            Some(k) => 0 <= k < s.len() && s[k] == c && forall|j: int| 0 <= j < k ==> s[j] != c,
            None => forall|j: int| 0 <= j < s.len() ==> s[j] != c,
        },
    ensures
        first_index_of(s, c) == k,
{
    lemma_index_of_from(s, c, 0);
    match first_index_of(s, c) {
        Some(f) => {
            match k {
                Some(k) => {
                    if f < k {
                        assert(s[f] != c);
                    }
                    if k < f {
                        assert(s[k] != c);
                    }
                },
                None => {
                    assert(s[f] != c);
                },
            }
        },
        None => {
            match k {
                Some(k) => {
                    assert(s[k] != c);
                },
                None => {},
            }
        },
    }
}

/// A search from the back is characterised by where it stops.
pub proof fn lemma_last_index_is(s: Seq<char>, c: char, k: Option<int>)
    requires
        match k {
            Some(k) => 0 <= k < s.len() && s[k] == c && forall|j: int|
                k < j < s.len() ==> s[j] != c,
            None => forall|j: int| 0 <= j < s.len() ==> s[j] != c,
        },
    ensures
        last_index_of(s, c) == k,
{
    lemma_index_of_before(s, c, s.len() as int);
    match last_index_of(s, c) {
        Some(f) => {
            match k {
                Some(k) => {
                    if f < k {
                        assert(s[k] != c);
                    }
                    if k < f {
                        assert(s[f] != c);
                    }
                },
                None => {
                    assert(s[f] != c);
                },
            }
        },
        None => {
            match k {
                Some(k) => {
                    assert(s[k] != c);
                },
                None => {},
            }
        },
    }
}

/// The first index in `v[lo..hi]` that holds `c`, counted from the start of `v`.
pub fn find_in(v: &Vec<char>, lo: usize, hi: usize, c: char) -> (r: Option<usize>)
    requires
        lo <= hi <= v.len(),
    ensures
        match r {
            Some(k) => first_index_of(v@.subrange(lo as int, hi as int), c) == Some(k - lo),
            None => first_index_of(v@.subrange(lo as int, hi as int), c) is None,
        },
        r matches Some(k) ==> lo <= k < hi,
{
    let ghost s = v@.subrange(lo as int, hi as int);
    let mut i = lo;
    while i < hi
        invariant
            lo <= i <= hi <= v.len(),
            s == v@.subrange(lo as int, hi as int),
            forall|j: int| 0 <= j < i - lo ==> s[j] != c,
        decreases hi - i,
    {
        if v[i] == c {
            proof {
                lemma_first_index_is(s, c, Some(i - lo));
            }
            return Some(i);
        }
        i = i + 1;
    }
    proof {
        lemma_first_index_is(s, c, None);
    }
    None
}

/// The last index in `v[lo..hi]` that holds `c`, counted from the start of `v`.
pub fn rfind_in(v: &Vec<char>, lo: usize, hi: usize, c: char) -> (r: Option<usize>)
    requires
        lo <= hi <= v.len(),
    ensures
        match r {
            Some(k) => last_index_of(v@.subrange(lo as int, hi as int), c) == Some(k - lo),
            None => last_index_of(v@.subrange(lo as int, hi as int), c) is None,
        },
        r matches Some(k) ==> lo <= k < hi,
{
    let ghost s = v@.subrange(lo as int, hi as int);
    let mut i = hi;
    while i > lo
        invariant
            lo <= i <= hi <= v.len(),
            s == v@.subrange(lo as int, hi as int),
            forall|j: int| i - lo <= j < s.len() ==> s[j] != c,
        decreases i - lo,
    {
        if v[i - 1] == c {
            proof {
                lemma_last_index_is(s, c, Some(i - 1 - lo));
            }
            return Some(i - 1);
        }
        i = i - 1;
    }
    proof {
        lemma_last_index_is(s, c, None);
    }
    None
}

/// Whether every character of `v[lo..hi]` is an ASCII digit.
pub fn all_digits_in(v: &Vec<char>, lo: usize, hi: usize) -> (r: bool)
    requires
        lo <= hi <= v.len(),
    ensures
        r == all_digits(v@.subrange(lo as int, hi as int)),
{
    let ghost s = v@.subrange(lo as int, hi as int);
    let mut i = lo;
    while i < hi
        invariant
            lo <= i <= hi <= v.len(),
            s == v@.subrange(lo as int, hi as int),
            forall|j: int| 0 <= j < i - lo ==> is_digit(#[trigger] s[j]),
        decreases hi - i,
    {
        assert(s[i - lo] == v@[i as int]);
        if digit_of(v[i]).is_none() {
            return false;
        }
        i = i + 1;
    }
    true
}

/// Whether `v[lo..hi]` is the single character `a`.
pub fn range_is1(v: &Vec<char>, lo: usize, hi: usize, a: char) -> (r: bool)
    requires
        lo <= hi <= v.len(),
    ensures
        r == (v@.subrange(lo as int, hi as int) == seq![a]),
{
    let ghost s = v@.subrange(lo as int, hi as int);
    let r = hi - lo == 1 && v[lo] == a;
    if r {
        assert(s =~= seq![a]);
    } else if hi - lo == 1 {
        assert(s[0] == v@[lo as int]);
        assert(s[0] != seq![a][0]);
    } else {
        assert(s.len() != seq![a].len());
    }
    r
}

/// Whether `v` is the one-character text `a`.
pub fn text_is1(v: &Vec<char>, a: char) -> (r: bool)
    ensures
        r == (v@ == seq![a]),
{
    let r = v.len() == 1 && v[0] == a;
    if r {
        assert(v@ =~= seq![a]);
    } else if v.len() == 1 {
        assert(v@[0] != seq![a][0]);
    }
    r
}

/// Whether `v` is the three-character text `a b c`.
pub fn text_is3(v: &Vec<char>, a: char, b: char, c: char) -> (r: bool)
    ensures
        r == (v@ == seq![a, b, c]),
{
    let r = v.len() == 3 && v[0] == a && v[1] == b && v[2] == c;
    let ghost t = seq![a, b, c];
    if r {
        assert(v@ =~= t);
    } else if v.len() == 3 {
        assert(v@[0] != t[0] || v@[1] != t[1] || v@[2] != t[2]);
    }
    r
}

/// Whether `v` is the four-character text `a b c d`.
pub fn text_is4(v: &Vec<char>, a: char, b: char, c: char, d: char) -> (r: bool)
    ensures
        r == (v@ == seq![a, b, c, d]),
{
    let r = v.len() == 4 && v[0] == a && v[1] == b && v[2] == c && v[3] == d;
    let ghost t = seq![a, b, c, d];
    if r {
        assert(v@ =~= t);
    } else if v.len() == 4 {
        assert(v@[0] != t[0] || v@[1] != t[1] || v@[2] != t[2] || v@[3] != t[3]);
    }
    r
}

/// The characters of a string, in order.
pub fn chars_of(s: &str) -> (v: Vec<char>)
    ensures
        v@ == s@,
{
    let mut v: Vec<char> = Vec::new();
    for ch in it: s.chars()
        invariant
            v@ == it.seq().take(it.index() as int),
    {
        v.push(ch);
    }
    v
}

// ---------------------------------------------------------------------------
// UTF-8
// ---------------------------------------------------------------------------

/// The UTF-8 encoding of one character, as `char::encode_utf8` writes it.
pub fn encode_char_utf8(ch: char) -> (r: Vec<u8>)
    ensures
        r@ == encode_scalar(ch as u32),
{
    let v: u32 = ch as u32;
    if v <= 0x7f {
        let r = vec![(v & 0x7f) as u8];
        assert(r@ =~= encode_scalar(v));
        r
    } else if v <= 0x7ff {
        let r = vec![0xC0 | ((v >> 6) & 0x1F) as u8, 0x80 | (v & 0x3F) as u8];
        assert(r@ =~= encode_scalar(v));
        r
    } else if v <= 0xffff {
        proof {
            char_is_scalar(ch);
        }
        let r = vec![
            0xE0 | ((v >> 12) & 0x0F) as u8,
            0x80 | ((v >> 6) & 0x3F) as u8,
            0x80 | (v & 0x3F) as u8,
        ];
        assert(r@ =~= encode_scalar(v));
        r
    } else {
        proof {
            char_is_scalar(ch);
        }
        let r = vec![
            0xF0 | ((v >> 18) & 0x7) as u8,
            0x80 | ((v >> 12) & 0x3F) as u8,
            0x80 | ((v >> 6) & 0x3F) as u8,
            0x80 | (v & 0x3F) as u8,
        ];
        assert(r@ =~= encode_scalar(v));
        r
    }
}

/// Calls `char::from_u32`, which by its documentation returns the character
/// whose value is `v` when `v` is a Unicode scalar value (at most `0x10FFFF` and
/// outside the surrogates `0xD800..=0xDFFF`), and `None` otherwise.
#[verifier::external_body]
pub fn char_from_u32(v: u32) -> (r: Option<char>)
    ensures
        r == (if is_scalar(v) {
            Some(v as char)
        } else {
            None
        }),
        r matches Some(c) ==> c as u32 == v,
{
    char::from_u32(v)
}

} // verus!
