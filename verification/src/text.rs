//! Text as sequences of characters: searching, trimming, splitting, joining and
//! printing of numbers.
use vstd::prelude::*;

verus! {

/// The text built by appending one character.
///
/// Specifies `String::push`: the character goes behind what the string holds.
pub assume_specification[ String::push ](s: &mut String, c: char)
    ensures
        final(s)@ == old(s)@.push(c),
;

/// Puts `item` behind what `items` holds.
pub fn push_to<T: DeepView>(items: &mut Vec<T>, item: T)
    ensures
        final(items)@ == old(items)@.push(item),
        final(items).deep_view() == old(items).deep_view().push(item.deep_view()),
{
    let ghost before = items.deep_view();
    items.push(item);
    assert(items.deep_view() =~= before.push(item.deep_view()));
}

/// Whether `needle` stands in `hay` at position `i`.
pub open spec fn occurs_at(hay: Seq<char>, needle: Seq<char>, i: int) -> bool {
    0 <= i && i + needle.len() <= hay.len() && hay.subrange(i, i + needle.len()) == needle
}

/// The first position at or behind `i` where `needle` stands in `hay`.
pub open spec fn find_from(hay: Seq<char>, needle: Seq<char>, i: int) -> Option<int>
    decreases hay.len() + 1 - i,
{
    if i < 0 || i + needle.len() > hay.len() {
        None
    } else if occurs_at(hay, needle, i) {
        Some(i)
    } else {
        find_from(hay, needle, i + 1)
    }
}

/// The first position where `needle` stands in `hay`.
pub open spec fn find(hay: Seq<char>, needle: Seq<char>) -> Option<int> {
    find_from(hay, needle, 0)
}

/// Whether `needle` stands anywhere in `hay`.
pub open spec fn contains(hay: Seq<char>, needle: Seq<char>) -> bool {
    find(hay, needle) is Some
}

/// Whether `text` begins with `prefix`.
pub open spec fn starts_with(text: Seq<char>, prefix: Seq<char>) -> bool {
    prefix.len() <= text.len() && text.take(prefix.len() as int) == prefix
}

/// The characters with the Unicode property White_Space.
pub open spec fn is_white(c: char) -> bool {
    ||| '\u{9}' <= c <= '\u{d}'
    ||| c == '\u{20}'
    ||| c == '\u{85}'
    ||| c == '\u{a0}'
    ||| c == '\u{1680}'
    ||| '\u{2000}' <= c <= '\u{200a}'
    ||| c == '\u{2028}'
    ||| c == '\u{2029}'
    ||| c == '\u{202f}'
    ||| c == '\u{205f}'
    ||| c == '\u{3000}'
}

/// `s` without the white space it begins with.
pub open spec fn trim_start(s: Seq<char>) -> Seq<char>
    decreases s.len(),
{
    if s.len() > 0 && is_white(s[0]) {
        trim_start(s.skip(1))
    } else {
        s
    }
}

/// `s` without the white space it ends with.
pub open spec fn trim_end(s: Seq<char>) -> Seq<char>
    decreases s.len(),
{
    if s.len() > 0 && is_white(s.last()) {
        trim_end(s.drop_last())
    } else {
        s
    }
}

/// `s` without the white space at either end.
pub open spec fn trim(s: Seq<char>) -> Seq<char> {
    trim_end(trim_start(s))
}

/// The pieces of `s` between the occurrences of `sep`, read from the left.
pub open spec fn split(s: Seq<char>, sep: Seq<char>) -> Seq<Seq<char>>
    decreases s.len(),
{
    match find(s, sep) {
        Some(i) if sep.len() > 0 && 0 <= i && i + sep.len() <= s.len() => {
            seq![s.take(i)] + split(s.skip(i + sep.len()), sep)
        },
        _ => seq![s],
    }
}

/// The parts put one behind another with `sep` between neighbours.
pub open spec fn join(parts: Seq<Seq<char>>, sep: Seq<char>) -> Seq<char>
    decreases parts.len(),
{
    if parts.len() == 0 {
        Seq::empty()
    } else if parts.len() == 1 {
        parts[0]
    } else {
        join(parts.drop_last(), sep) + sep + parts.last()
    }
}

/// The digit of value `d`; beyond nine a letter of the given case.
pub open spec fn digit(d: nat, upper: bool) -> char {
    if d < 10 {
        ('0' as nat + d) as char
    } else if upper {
        ('A' as nat + (d - 10) as nat) as char
    } else {
        ('a' as nat + (d - 10) as nat) as char
    }
}

/// `n` written in base `base` without leading zeros.
pub open spec fn numeral(n: nat, base: nat, upper: bool) -> Seq<char>
    decreases n,
{
    if base < 2 || n < base {
        seq![digit(n, upper)]
    } else {
        proof {
            assert(n / base < n) by (nonlinear_arith)
                requires
                    base >= 2,
                    n >= base,
            ;
        }
        numeral(n / base, base, upper).push(digit(n % base, upper))
    }
}

/// `n` in decimal.
pub open spec fn decimal(n: nat) -> Seq<char> {
    numeral(n, 10, false)
}

/// `n` in hexadecimal, filled up with zeros on the left to at least `width` digits.
pub open spec fn hex_padded(n: nat, width: nat, upper: bool) -> Seq<char> {
    let digits = numeral(n, 16, upper);
    if digits.len() >= width {
        digits
    } else {
        Seq::new((width - digits.len()) as nat, |i: int| '0') + digits
    }
}

/// The characters of `s`.
pub fn chars_of(s: &str) -> (r: Vec<char>)
    ensures
        r@ == s@,
{
    let mut out: Vec<char> = Vec::new();
    for c in it: s.chars()
        invariant
            out@ =~= it.seq().take(it.index() as int),
            it.seq() == s@,
    {
        out.push(c);
    }
    out
}

/// The text of the characters of `chars` from `from` up to `to`.
pub fn text_between(chars: &[char], from: usize, to: usize) -> (r: String)
    requires
        from <= to <= chars@.len(),
    ensures
        r@ == chars@.subrange(from as int, to as int),
{
    let mut out = String::new();
    let mut i: usize = from;
    while i < to
        invariant
            from <= i <= to <= chars@.len(),
            out@ =~= chars@.subrange(from as int, i as int),
        decreases to - i,
    {
        out.push(chars[i]);
        i = i + 1;
    }
    out
}

/// Whether the two texts are the same.
pub fn same(a: &str, b: &str) -> (r: bool)
    ensures
        r == (a@ == b@),
{
    let x = chars_of(a);
    let y = chars_of(b);
    if x.len() != y.len() {
        return false;
    }
    let mut i: usize = 0;
    while i < x.len()
        invariant
            x@.len() == y@.len(),
            x@ == a@,
            y@ == b@,
            i <= x@.len(),
            forall|j: int| 0 <= j < i ==> x@[j] == y@[j],
        decreases x.len() - i,
    {
        if x[i] != y[i] {
            return false;
        }
        i = i + 1;
    }
    assert(x@ =~= y@);
    true
}

/// The code point of `c`.
pub fn code_point(c: char) -> (r: u32)
    ensures
        r == c as nat,
{
    c as u32
}

/// Whether `c` has the Unicode property White_Space.
pub fn is_white_char(c: char) -> (r: bool)
    ensures
        r == is_white(c),
{
    ('\u{9}' <= c && c <= '\u{d}') || c == '\u{20}' || c == '\u{85}' || c == '\u{a0}' || c
        == '\u{1680}' || ('\u{2000}' <= c && c <= '\u{200a}') || c == '\u{2028}' || c == '\u{2029}'
        || c == '\u{202f}' || c == '\u{205f}' || c == '\u{3000}'
}

/// The first position at or behind `from` where `needle` stands in `hay`.
pub fn position_from(hay: &[char], needle: &[char], from: usize) -> (r: Option<usize>)
    requires
        from <= hay@.len(),
    ensures
        match r {
            Some(i) => find_from(hay@, needle@, from as int) == Some(i as int) && from <= i && i
                + needle@.len() <= hay@.len() && occurs_at(hay@, needle@, i as int),
            None => find_from(hay@, needle@, from as int) is None,
        },
{
    let n: usize = hay.len();
    let mut i: usize = from;
    while i <= n && needle.len() <= n - i
        invariant
            n == hay@.len(),
            from <= i,
            i <= n + 1,
            find_from(hay@, needle@, from as int) == find_from(hay@, needle@, i as int),
        decreases hay@.len() + 1 - i,
    {
        let mut k: usize = 0;
        while k < needle.len() && hay[i + k] == needle[k]
            invariant
                k <= needle@.len(),
                i + needle@.len() <= n,
                n == hay@.len(),
                forall|j: int| 0 <= j < k ==> hay@[i + j] == needle@[j],
            decreases needle@.len() - k,
        {
            k = k + 1;
        }
        if k == needle.len() {
            assert(hay@.subrange(i as int, i + needle@.len()) =~= needle@);
            return Some(i);
        }
        assert(hay@.subrange(i as int, i + needle@.len())[k as int] == hay@[i + k]);
        assert(!occurs_at(hay@, needle@, i as int));
        if i == usize::MAX {
            return None;
        }
        i = i + 1;
    }
    None
}

/// Where `needle` first stands in `hay`, counted in characters.
pub fn position(hay: &str, needle: &str) -> (r: Option<usize>)
    ensures
        match r {
            Some(i) => find(hay@, needle@) == Some(i as int) && i + needle@.len() <= hay@.len(),
            None => find(hay@, needle@) is None,
        },
{
    position_from(&chars_of(hay), &chars_of(needle), 0)
}

/// Whether `needle` stands in `hay`.
pub fn has(hay: &str, needle: &str) -> (r: bool)
    ensures
        r == contains(hay@, needle@),
{
    position(hay, needle).is_some()
}

/// `text` without `prefix`, where it begins with it.
pub fn strip_prefix(text: &str, prefix: &str) -> (r: Option<String>)
    ensures
        match r {
            Some(rest) => starts_with(text@, prefix@) && rest@ == text@.skip(prefix@.len() as int),
            None => !starts_with(text@, prefix@),
        },
{
    let t = chars_of(text);
    let p = chars_of(prefix);
    if p.len() > t.len() {
        return None;
    }
    let mut i: usize = 0;
    while i < p.len()
        invariant
            p@.len() <= t@.len(),
            p@ == prefix@,
            t@ == text@,
            i <= p@.len(),
            forall|j: int| 0 <= j < i ==> p@[j] == t@[j],
        decreases p@.len() - i,
    {
        if p[i] != t[i] {
            assert(text@.take(prefix@.len() as int)[i as int] != prefix@[i as int]);
            return None;
        }
        i = i + 1;
    }
    assert(text@.take(prefix@.len() as int) =~= prefix@);
    let rest = text_between(&t, p.len(), t.len());
    assert(text@.skip(prefix@.len() as int) =~= text@.subrange(
        prefix@.len() as int,
        text@.len() as int,
    ));
    Some(rest)
}

/// Whether `text` begins with `prefix`.
pub fn begins(text: &str, prefix: &str) -> (r: bool)
    ensures
        r == starts_with(text@, prefix@),
{
    strip_prefix(text, prefix).is_some()
}

/// `s` without the white space it begins with.
pub fn trimmed_start(s: &str) -> (r: String)
    ensures
        r@ == trim_start(s@),
{
    let c = chars_of(s);
    let mut i: usize = 0;
    assert(s@.skip(0) =~= s@);
    while i < c.len() && is_white_char(c[i])
        invariant
            i <= c@.len(),
            c@ == s@,
            trim_start(s@) == trim_start(s@.skip(i as int)),
        decreases c@.len() - i,
    {
        assert(s@.skip(i as int).skip(1) =~= s@.skip(i + 1));
        i = i + 1;
    }
    assert(s@.skip(i as int) =~= s@.subrange(i as int, s@.len() as int));
    text_between(&c, i, c.len())
}

/// `s` without the white space it ends with.
pub fn trimmed_end(s: &str) -> (r: String)
    ensures
        r@ == trim_end(s@),
{
    let c = chars_of(s);
    let mut i: usize = c.len();
    assert(s@.take(s@.len() as int) =~= s@);
    while i > 0 && is_white_char(c[i - 1])
        invariant
            i <= c@.len(),
            c@ == s@,
            trim_end(s@) == trim_end(s@.take(i as int)),
        decreases i,
    {
        assert(s@.take(i as int).drop_last() =~= s@.take(i - 1));
        i = i - 1;
    }
    assert(s@.take(i as int) =~= s@.subrange(0, i as int));
    text_between(&c, 0, i)
}

/// `s` without the white space at either end.
pub fn trimmed(s: &str) -> (r: String)
    ensures
        r@ == trim(s@),
{
    let t = trimmed_start(s);
    trimmed_end(&t)
}

/// The parts put one behind another with `sep` between neighbours.
pub fn joined(parts: &Vec<String>, sep: &str) -> (r: String)
    ensures
        r@ == join(parts.deep_view(), sep@),
{
    let mut out = String::new();
    let mut i: usize = 0;
    while i < parts.len()
        invariant
            i <= parts@.len(),
            out@ == join(parts.deep_view().take(i as int), sep@),
        decreases parts@.len() - i,
    {
        if i > 0 {
            out.append(sep);
        }
        out.append(parts[i].as_str());
        proof {
            let taken = parts.deep_view().take(i + 1);
            assert(taken.drop_last() =~= parts.deep_view().take(i as int));
            if i == 0 {
                assert(parts.deep_view().take(0).len() == 0);
                assert(out@ =~= taken[0]);
            }
        }
        i = i + 1;
    }
    assert(parts.deep_view().take(i as int) =~= parts.deep_view());
    out
}

/// The pieces of `s` between the occurrences of `sep`.
pub fn pieces(s: &str, sep: &str) -> (r: Vec<String>)
    requires
        sep@.len() > 0,
    ensures
        r.deep_view() == split(s@, sep@),
{
    let hay = chars_of(s);
    let needle = chars_of(sep);
    let mut out: Vec<String> = Vec::new();
    let mut at: usize = 0;
    proof {
        assert(s@.skip(0) =~= s@);
        assert(out.deep_view() + split(s@, sep@) =~= split(s@, sep@));
    }
    loop
        invariant_except_break
            at <= hay@.len(),
            split(s@, sep@) == out.deep_view() + split(s@.skip(at as int), sep@),
        invariant
            hay@ == s@,
            needle@ == sep@,
            sep@.len() > 0,
        ensures
            split(s@, sep@) == out.deep_view(),
        decreases hay@.len() - at,
    {
        let rest = text_between(&hay, at, hay.len());
        assert(rest@ =~= s@.skip(at as int));
        match position(&rest, sep) {
            Some(i) => {
                let piece = text_between(&hay, at, at + i);
                let ghost before = out.deep_view();
                out.push(piece);
                proof {
                    let tail = s@.skip(at as int);
                    assert(piece@ =~= tail.take(i as int));
                    assert(tail.skip(i + sep@.len()) =~= s@.skip(at + i + sep@.len()));
                    assert(out.deep_view() =~= before.push(piece@));
                    assert(before + (seq![tail.take(i as int)] + split(
                        tail.skip(i + sep@.len()),
                        sep@,
                    )) =~= before.push(piece@) + split(tail.skip(i + sep@.len()), sep@));
                }
                at = at + i + needle.len();
            },
            None => {
                let ghost before = out.deep_view();
                out.push(rest);
                proof {
                    assert(out.deep_view() =~= before + seq![s@.skip(at as int)]);
                }
                break;
            },
        }
    }
    out
}

/// `n` in the given base, two to sixteen.
pub fn numeral_of(n: u128, base: u128, upper: bool) -> (r: String)
    requires
        2 <= base <= 16,
    ensures
        r@ == numeral(n as nat, base as nat, upper),
    decreases n,
{
    let low: u128 = n % base;
    let c = if low < 10 {
        (48 + low as u8) as char
    } else if upper {
        (65 + (low - 10) as u8) as char
    } else {
        (97 + (low - 10) as u8) as char
    };
    assert(c == digit(low as nat, upper));
    if n < base {
        assert(n % base == n) by (nonlinear_arith)
            requires
                n < base,
        ;
        let mut out = String::new();
        out.push(c);
        assert(out@ =~= seq![digit(n as nat, upper)]);
        out
    } else {
        assert(n / base < n) by (nonlinear_arith)
            requires
                2 <= base,
                base <= n,
        ;
        let mut out = numeral_of(n / base, base, upper);
        out.push(c);
        out
    }
}

/// `n` in decimal.
pub fn decimal_of(n: u128) -> (r: String)
    ensures
        r@ == decimal(n as nat),
{
    numeral_of(n, 10, false)
}

/// `n` in hexadecimal with at least `width` digits.
pub fn hex_of(n: u64, width: usize, upper: bool) -> (r: String)
    ensures
        r@ == hex_padded(n as nat, width as nat, upper),
{
    let digits = numeral_of(n as u128, 16, upper);
    let have: usize = digits.as_str().unicode_len();
    let mut out = String::new();
    if have >= width {
        return digits;
    }
    let mut i: usize = have;
    while i < width
        invariant
            have <= i <= width,
            out@ =~= Seq::new((i - have) as nat, |k: int| '0'),
        decreases width - i,
    {
        out.push('0');
        i = i + 1;
    }
    out.append(digits.as_str());
    out
}

/// Whether `c` is a decimal digit.
pub open spec fn is_digit(c: char) -> bool {
    '0' <= c <= '9'
}

/// The number that a row of decimal digits spells.
pub open spec fn digits_value(s: Seq<char>) -> nat
    decreases s.len(),
{
    if s.len() == 0 {
        0
    } else {
        digits_value(s.drop_last()) * 10 + (s.last() as nat - '0' as nat) as nat
    }
}

/// Whether `s` is made of decimal digits alone.
pub open spec fn all_digits(s: Seq<char>) -> bool {
    forall|i: int| 0 <= i < s.len() ==> is_digit(#[trigger] s[i])
}

/// `s` without a plus sign that it begins with.
pub open spec fn without_plus(s: Seq<char>) -> Seq<char> {
    if s.len() > 0 && s[0] == '+' {
        s.skip(1)
    } else {
        s
    }
}

/// The `u64` that a text spells: decimal digits, with a plus sign before them or not.
pub open spec fn parse_unsigned(s: Seq<char>) -> Option<u64> {
    let digits = without_plus(s);
    if digits.len() > 0 && all_digits(digits) && digits_value(digits) <= u64::MAX {
        Some(digits_value(digits) as u64)
    } else {
        None
    }
}

proof fn digits_value_grows(s: Seq<char>, k: int)
    requires
        0 <= k <= s.len(),
    ensures
        digits_value(s.take(k)) <= digits_value(s),
    decreases s.len() - k,
{
    if k < s.len() {
        digits_value_grows(s, k + 1);
        assert(s.take(k + 1).drop_last() =~= s.take(k));
    } else {
        assert(s.take(k) =~= s);
    }
}

/// The `u64` that `s` spells in decimal.
pub fn unsigned_of(s: &str) -> (r: Option<u64>)
    ensures
        r == parse_unsigned(s@),
{
    let c = chars_of(s);
    let from: usize = if c.len() > 0 && c[0] == '+' {
        1
    } else {
        0
    };
    let ghost digits = without_plus(s@);
    assert(digits =~= s@.skip(from as int));
    if from == c.len() {
        return None;
    }
    let mut value: u64 = 0;
    let mut i: usize = from;
    while i < c.len()
        invariant
            from <= i <= c@.len(),
            from < c@.len(),
            c@ == s@,
            digits == s@.skip(from as int),
            digits == without_plus(s@),
            forall|k: int| 0 <= k < i - from ==> is_digit(#[trigger] digits[k]),
            value == digits_value(digits.take(i - from)),
        decreases c@.len() - i,
    {
        let d = c[i];
        assert(d == digits[i - from]);
        if d < '0' || d > '9' {
            assert(!is_digit(digits[i - from]));
            return None;
        }
        let digit_value: u64 = (d as u32 - 48) as u64;
        proof {
            digits_value_grows(digits, i - from + 1);
            assert(digits.take(i - from + 1).drop_last() =~= digits.take(i - from));
        }
        match value.checked_mul(10) {
            None => {
                return None;
            },
            Some(shifted) => {
                match shifted.checked_add(digit_value) {
                    None => {
                        return None;
                    },
                    Some(sum) => {
                        value = sum;
                    },
                }
            },
        }
        i = i + 1;
    }
    assert(digits.take(i - from) =~= digits);
    Some(value)
}

/// `s` without the copies of `c` it ends with.
pub open spec fn trim_end_char(s: Seq<char>, c: char) -> Seq<char>
    decreases s.len(),
{
    if s.len() > 0 && s.last() == c {
        trim_end_char(s.drop_last(), c)
    } else {
        s
    }
}

/// `s` without the copies of `c` it ends with.
pub fn trimmed_end_char(s: &str, c: char) -> (r: String)
    ensures
        r@ == trim_end_char(s@, c),
{
    let chars = chars_of(s);
    let mut i: usize = chars.len();
    assert(s@.take(s@.len() as int) =~= s@);
    while i > 0 && chars[i - 1] == c
        invariant
            i <= chars@.len(),
            chars@ == s@,
            trim_end_char(s@, c) == trim_end_char(s@.take(i as int), c),
        decreases i,
    {
        assert(s@.take(i as int).drop_last() =~= s@.take(i - 1));
        i = i - 1;
    }
    assert(s@.take(i as int) =~= s@.subrange(0, i as int));
    text_between(&chars, 0, i)
}

/// Two texts put together.
pub fn labelled(label: &str, rest: &str) -> (r: String)
    ensures
        r@ == label@ + rest@,
{
    let mut out = label.to_owned();
    out.append(rest);
    out
}

/// A whole number in decimal, with a sign where it is negative.
pub open spec fn signed_decimal(n: int) -> Seq<char> {
    if n < 0 {
        "-"@ + decimal((-n) as nat)
    } else {
        decimal(n as nat)
    }
}

/// A whole number in decimal.
pub fn signed_decimal_of(n: i64) -> (r: String)
    ensures
        r@ == signed_decimal(n as int),
{
    if n < 0 {
        labelled("-", decimal_of((-(n as i128)) as u128).as_str())
    } else {
        decimal_of(n as u128)
    }
}

/// The text that `String::from_utf8_lossy` makes of bytes.
pub uninterp spec fn lossy_utf8(bytes: Seq<u8>) -> Seq<char>;

/// Calls `String::from_utf8_lossy`, which reads bytes as UTF-8 and puts a replacement
/// character where they are not. The contract names the text, and claims that bytes
/// which are UTF-8 are decoded as such.
#[verifier::external_body]
pub(crate) fn lossy_text(bytes: &[u8]) -> (r: String)
    ensures
        r@ == lossy_utf8(bytes@),
        vstd::utf8::valid_utf8(bytes@) ==> r@ == vstd::utf8::decode_utf8(bytes@),
{
    String::from_utf8_lossy(bytes).into_owned()
}

/// A text as Rust's `{:?}` prints it: quoted and escaped.
pub uninterp spec fn quoted_text(s: Seq<char>) -> Seq<char>;

/// Calls `str`'s `Debug`. The contract names what it prints.
#[verifier::external_body]
pub(crate) fn quote(s: &str) -> (r: String)
    ensures
        r@ == quoted_text(s@),
{
    format!("{:?}", s)
}

/// A text in lower case, as `str::to_lowercase` has it.
pub uninterp spec fn lowercase(s: Seq<char>) -> Seq<char>;

/// Calls `str::to_lowercase`. The contract names the text it gives.
#[verifier::external_body]
pub(crate) fn lower(s: &str) -> (r: String)
    ensures
        r@ == lowercase(s@),
{
    s.to_lowercase()
}

/// A text in the middle of being cut into words: the words so far, and the one that is
/// not ended.
pub ghost struct WordScan {
    pub done: Seq<Seq<char>>,
    pub current: Seq<char>,
}

/// The scan with its last word ended, where there is one.
pub open spec fn word_ended(scan: WordScan) -> Seq<Seq<char>> {
    if scan.current.len() == 0 {
        scan.done
    } else {
        scan.done.push(scan.current)
    }
}

/// The scan of a text.
pub open spec fn scan_words(s: Seq<char>) -> WordScan
    decreases s.len(),
{
    if s.len() == 0 {
        WordScan { done: Seq::empty(), current: Seq::empty() }
    } else {
        let before = scan_words(s.drop_last());
        if is_white(s.last()) {
            WordScan { done: word_ended(before), current: Seq::empty() }
        } else {
            WordScan { done: before.done, current: before.current.push(s.last()) }
        }
    }
}

/// The words of a text: its longest runs of characters that are not white space.
pub open spec fn words(s: Seq<char>) -> Seq<Seq<char>> {
    word_ended(scan_words(s))
}

/// The words of a text.
pub fn words_of(s: &str) -> (r: Vec<String>)
    ensures
        r.deep_view() == words(s@),
{
    let c = chars_of(s);
    let mut done: Vec<String> = Vec::new();
    let mut current = String::new();
    let mut i: usize = 0;
    assert(done.deep_view() =~= Seq::empty());
    while i < c.len()
        invariant
            i <= c@.len(),
            c@ == s@,
            scan_words(s@.take(i as int)) == (WordScan {
                done: done.deep_view(),
                current: current@,
            }),
        decreases c@.len() - i,
    {
        assert(s@.take(i + 1).drop_last() =~= s@.take(i as int));
        if is_white_char(c[i]) {
            if !current.as_str().is_empty() {
                push_to(&mut done, current);
                current = String::new();
            }
            assert(current@ =~= Seq::empty());
        } else {
            current.push(c[i]);
        }
        i = i + 1;
    }
    assert(s@.take(i as int) =~= s@);
    if !current.as_str().is_empty() {
        push_to(&mut done, current);
    }
    done
}

/// A text with a backslash put before each double quote.
pub open spec fn quotes_escaped(s: Seq<char>) -> Seq<char>
    decreases s.len(),
{
    if s.len() == 0 {
        Seq::empty()
    } else {
        let before = quotes_escaped(s.drop_last());
        if s.last() == '"' {
            before.push('\\').push('"')
        } else {
            before.push(s.last())
        }
    }
}

/// A text with a backslash put before each double quote.
pub fn escape_quotes(s: &str) -> (r: String)
    ensures
        r@ == quotes_escaped(s@),
{
    let c = chars_of(s);
    let mut out = String::new();
    let mut i: usize = 0;
    while i < c.len()
        invariant
            i <= c@.len(),
            c@ == s@,
            out@ == quotes_escaped(s@.take(i as int)),
        decreases c@.len() - i,
    {
        assert(s@.take(i + 1).drop_last() =~= s@.take(i as int));
        if c[i] == '"' {
            out.push('\\');
        }
        out.push(c[i]);
        i = i + 1;
    }
    assert(s@.take(i as int) =~= s@);
    out
}

} // verus!
