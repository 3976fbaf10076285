//! Small verified helpers on character sequences.
use vstd::prelude::*;

verus! {

/// `String::push` appends one character to the end of the string.
pub assume_specification[ String::push ](s: &mut String, c: char)
    ensures
        final(s)@ == old(s)@.push(c),
;

/// The characters of `s`, in order.
pub fn to_chars(s: &str) -> (out: Vec<char>)
    ensures
        out@ == s@,
{
    let mut out: Vec<char> = Vec::new();
    for c in it: s.chars()
        invariant
            it.seq() == s@,
            out@ == it.seq().take(it.index() as int),
    {
        out.push(c);
    }
    out
}

/// The string made of the characters of `v`, in order.
pub fn from_chars(v: &Vec<char>) -> (out: String)
    ensures
        out@ == v@,
{
    let mut out = String::new();
    let mut i: usize = 0;
    while i < v.len()
        invariant
            i <= v.len(),
            out@ == v@.take(i as int),
        decreases v.len() - i,
    {
        out.push(v[i]);
        i += 1;
    }
    out
}

/// The code point of `c`, with the ASCII capitals mapped onto their small
/// letters.
pub open spec fn fold(c: char) -> int {
    if 'A' <= c && c <= 'Z' {
        c as int + 32
    } else {
        c as int
    }
}

/// Equality of two texts, ASCII letters compared without regard to case.
pub open spec fn same_text(a: Seq<char>, b: Seq<char>) -> bool {
    &&& a.len() == b.len()
    &&& forall|i: int| 0 <= i < a.len() ==> fold(#[trigger] a[i]) == fold(b[i])
}

/// The code point of `c`, ASCII capitals mapped onto their small letters.
pub fn fold_char(c: char) -> (code: u32)
    ensures
        code == fold(c),
{
    if 'A' <= c && c <= 'Z' {
        c as u32 + 32
    } else {
        c as u32
    }
}

/// Whether the two texts are the same but for the case of ASCII letters.
pub fn same_text_exec(a: &Vec<char>, b: &Vec<char>) -> (same: bool)
    ensures
        same == same_text(a@, b@),
{
    if a.len() != b.len() {
        return false;
    }
    let mut i: usize = 0;
    while i < a.len()
        invariant
            i <= a.len(),
            a.len() == b.len(),
            forall|j: int| 0 <= j < i ==> fold(#[trigger] a@[j]) == fold(b@[j]),
        decreases a.len() - i,
    {
        if fold_char(a[i]) != fold_char(b[i]) {
            return false;
        }
        i += 1;
    }
    true
}

/// Whether `s` begins with `prefix`.
pub open spec fn starts_with(s: Seq<char>, prefix: Seq<char>) -> bool {
    prefix.len() <= s.len() && s.take(prefix.len() as int) == prefix
}

/// Whether `s` begins with `prefix`.
pub fn starts_with_exec(s: &Vec<char>, prefix: &Vec<char>) -> (yes: bool)
    ensures
        yes == starts_with(s@, prefix@),
{
    if prefix.len() > s.len() {
        return false;
    }
    let mut i: usize = 0;
    while i < prefix.len()
        invariant
            i <= prefix.len() <= s.len(),
            forall|j: int| 0 <= j < i ==> s@[j] == prefix@[j],
        decreases prefix.len() - i,
    {
        if s[i] != prefix[i] {
            assert(s@.take(prefix@.len() as int)[i as int] == s@[i as int]);
            return false;
        }
        i += 1;
    }
    assert(s@.take(prefix@.len() as int) =~= prefix@);
    true
}

/// Whether the two texts hold the same characters.
pub fn equal_text(a: &Vec<char>, b: &Vec<char>) -> (same: bool)
    ensures
        same == (a@ == b@),
{
    if a.len() != b.len() {
        return false;
    }
    let mut i: usize = 0;
    while i < a.len()
        invariant
            i <= a.len(),
            a.len() == b.len(),
            forall|j: int| 0 <= j < i ==> a@[j] == b@[j],
        decreases a.len() - i,
    {
        if a[i] != b[i] {
            return false;
        }
        i += 1;
    }
    assert(a@ =~= b@);
    true
}

/// Whether `s` ends with `suffix`.
pub open spec fn ends_with(s: Seq<char>, suffix: Seq<char>) -> bool {
    suffix.len() <= s.len() && s.skip(s.len() - suffix.len()) == suffix
}

/// Whether `s` ends with `suffix`.
pub fn ends_with_exec(s: &Vec<char>, suffix: &Vec<char>) -> (yes: bool)
    ensures
        yes == ends_with(s@, suffix@),
{
    if suffix.len() > s.len() {
        return false;
    }
    let off = s.len() - suffix.len();
    let mut i: usize = 0;
    while i < suffix.len()
        invariant
            i <= suffix.len() <= s.len(),
            off == s.len() - suffix.len(),
            forall|j: int| 0 <= j < i ==> s@[off + j] == suffix@[j],
        decreases suffix.len() - i,
    {
        if s[off + i] != suffix[i] {
            assert(s@.skip(off as int)[i as int] == s@[off + i]);
            return false;
        }
        i += 1;
    }
    assert(s@.skip(off as int) =~= suffix@);
    true
}

/// Appends the characters of `src` to `dst`.
pub fn append_chars(dst: &mut Vec<char>, src: &Vec<char>)
    ensures
        final(dst)@ == old(dst)@ + src@,
{
    let mut i: usize = 0;
    while i < src.len()
        invariant
            i <= src.len(),
            dst@ == old(dst)@ + src@.take(i as int),
        decreases src.len() - i,
    {
        dst.push(src[i]);
        assert(dst@ =~= old(dst)@ + src@.take(i + 1));
        i += 1;
    }
    assert(src@.take(src@.len() as int) =~= src@);
}

/// A copy of `v`.
pub fn copy_chars(v: &Vec<char>) -> (out: Vec<char>)
    ensures
        out@ == v@,
{
    let mut out: Vec<char> = Vec::new();
    let mut i: usize = 0;
    while i < v.len()
        invariant
            i <= v.len(),
            out@ == v@.take(i as int),
        decreases v.len() - i,
    {
        out.push(v[i]);
        i += 1;
    }
    out
}

/// Appends the characters of `s` to `out`.
pub fn put(out: &mut Vec<char>, s: &str)
    ensures
        final(out)@ == old(out)@ + s@,
{
    let chars = to_chars(s);
    append_chars(out, &chars);
}

/// The character of a decimal digit.
pub open spec fn digit_char(d: int) -> char {
    if d == 0 {
        '0'
    } else if d == 1 {
        '1'
    } else if d == 2 {
        '2'
    } else if d == 3 {
        '3'
    } else if d == 4 {
        '4'
    } else if d == 5 {
        '5'
    } else if d == 6 {
        '6'
    } else if d == 7 {
        '7'
    } else if d == 8 {
        '8'
    } else {
        '9'
    }
}

/// The decimal digits of `n`, without leading zeros.
pub open spec fn digits(n: nat) -> Seq<char>
    decreases n,
{
    if n < 10 {
        seq![digit_char(n as int)]
    } else {
        digits(n / 10).push(digit_char((n % 10) as int))
    }
}

/// The words `true` and `false`.
pub open spec fn bool_text(b: bool) -> Seq<char> {
    if b {
        "true"@
    } else {
        "false"@
    }
}

fn digit_exec(d: u64) -> (c: char)
    requires
        d < 10,
    ensures
        c == digit_char(d as int),
{
    if d == 0 {
        '0'
    } else if d == 1 {
        '1'
    } else if d == 2 {
        '2'
    } else if d == 3 {
        '3'
    } else if d == 4 {
        '4'
    } else if d == 5 {
        '5'
    } else if d == 6 {
        '6'
    } else if d == 7 {
        '7'
    } else if d == 8 {
        '8'
    } else {
        '9'
    }
}

/// Appends the decimal digits of `n` to `out`.
pub fn put_decimal(out: &mut Vec<char>, n: u64)
    ensures
        final(out)@ == old(out)@ + digits(n as nat),
    decreases n,
{
    if n >= 10 {
        put_decimal(out, n / 10);
    }
    out.push(digit_exec(n % 10));
    assert(out@ =~= old(out)@ + digits(n as nat));
}

/// The decimal digits of `n`, a minus sign before them where `n` is
/// negative.
pub open spec fn signed_digits(n: int) -> Seq<char> {
    if n < 0 {
        seq!['-'] + digits((-n) as nat)
    } else {
        digits(n as nat)
    }
}

/// Appends the decimal digits of `n` to `out`, a minus sign before them
/// where `n` is negative.
pub fn put_signed(out: &mut Vec<char>, n: i64)
    ensures
        final(out)@ == old(out)@ + signed_digits(n as int),
{
    if n < 0 {
        out.push('-');
        let size: u64 = if n == i64::MIN {
            0x8000_0000_0000_0000
        } else {
            (-n) as u64
        };
        put_decimal(out, size);
        assert(out@ =~= old(out)@ + signed_digits(n as int));
    } else {
        put_decimal(out, n as u64);
    }
}

/// The unit in which a size is shown.
#[derive(Clone, Copy, Debug, PartialEq, Eq, Structural)]
pub enum SizeUnit {
    /// Plain bytes.
    Bytes,
    /// Thousands of bytes.
    Kilo,
    /// Millions of bytes.
    Mega,
}

/// The unit in which the size `val` is shown: millions above a million,
/// thousands above a thousand, plain bytes else.
pub open spec fn unit_of(val: int) -> SizeUnit {
    if val > 1000 * 1000 {
        SizeUnit::Mega
    } else if val > 1000 {
        SizeUnit::Kilo
    } else {
        SizeUnit::Bytes
    }
}

/// The unit in which the size `val` is shown.
pub fn size_unit(val: i64) -> (unit: SizeUnit)
    ensures
        unit == unit_of(val as int),
{
    if val > 1000 * 1000 {
        SizeUnit::Mega
    } else if val > 1000 {
        SizeUnit::Kilo
    } else {
        SizeUnit::Bytes
    }
}

/// A size in plain bytes: the number, a blank and `B`.
pub open spec fn bytes_text(val: int) -> Seq<char> {
    signed_digits(val) + " B"@
}

/// A size in plain bytes, as it is shown.
pub fn bytes_str(val: i64) -> (text: String)
    ensures
        text@ == bytes_text(val as int),
{
    let mut out: Vec<char> = Vec::new();
    put_signed(&mut out, val);
    put(&mut out, " B");
    assert(out@ =~= bytes_text(val as int));
    from_chars(&out)
}

/// Appends `true` or `false` to `out`.
pub fn put_bool(out: &mut Vec<char>, b: bool)
    ensures
        final(out)@ == old(out)@ + bool_text(b),
{
    if b {
        put(out, "true");
    } else {
        put(out, "false");
    }
}

/// Whether `a` comes before `b` in the order of the dictionary, looking
/// from position `i` on; characters are compared by code point.
pub open spec fn before_from(a: Seq<char>, b: Seq<char>, i: int) -> bool
    decreases b.len() - i,
{
    if i < 0 || i >= b.len() {
        false
    } else if i >= a.len() {
        true
    } else if a[i] != b[i] {
        a[i] < b[i]
    } else {
        before_from(a, b, i + 1)
    }
}

/// Whether `a` comes before `b` in the order of the dictionary.
pub open spec fn text_before(a: Seq<char>, b: Seq<char>) -> bool {
    before_from(a, b, 0)
}

/// Whether `a` comes before `b` in the order of the dictionary.
pub fn text_before_exec(a: &Vec<char>, b: &Vec<char>) -> (yes: bool)
    ensures
        yes == text_before(a@, b@),
{
    let mut i: usize = 0;
    while i < b.len() && i < a.len() && a[i] == b[i]
        invariant
            i <= a.len(),
            i <= b.len(),
            before_from(a@, b@, i as int) == text_before(a@, b@),
        decreases b.len() - i,
    {
        i += 1;
    }
    if i >= b.len() {
        false
    } else if i >= a.len() {
        true
    } else {
        a[i] < b[i]
    }
}

/// Of two texts, one comes before the other, or they are the same.
pub proof fn lemma_before_total(a: Seq<char>, b: Seq<char>, i: int)
    requires
        0 <= i <= a.len(),
        i <= b.len(),
        a.take(i) == b.take(i),
    ensures
        before_from(a, b, i) || before_from(b, a, i) || a == b,
    decreases b.len() - i,
{
    if i < b.len() && i < a.len() && a[i] == b[i] {
        assert(a.take(i + 1) =~= a.take(i).push(a[i]));
        assert(b.take(i + 1) =~= b.take(i).push(b[i]));
        lemma_before_total(a, b, i + 1);
    } else if i >= b.len() && i >= a.len() {
        assert(a.take(i) =~= a);
        assert(b.take(i) =~= b);
    }
}

/// What comes before something that comes before a third comes before the
/// third.
pub proof fn lemma_before_trans(a: Seq<char>, b: Seq<char>, c: Seq<char>, i: int)
    requires
        0 <= i,
        before_from(a, b, i),
        before_from(b, c, i),
    ensures
        before_from(a, c, i),
    decreases c.len() - i,
{
    if i < a.len() && a[i] == b[i] && b[i] == c[i] {
        lemma_before_trans(a, b, c, i + 1);
    }
}

} // verus!
