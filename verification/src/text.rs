//! Character-sequence helpers used throughout the library.

use vstd::prelude::*;

verus! {

/// Appends `s` to `buf`.
pub(crate) fn push_str(buf: &mut String, s: &str)
    ensures
        final(buf)@ == old(buf)@ + s@,
{
    buf.append(s);
}

/// Appends one character to `buf` (`String::push`).
#[verifier::external_body]
pub(crate) fn push_char(buf: &mut String, c: char)
    ensures
        final(buf)@ == old(buf)@.push(c),
{
    buf.push(c);
}

/// Whether two strings hold the same characters.
pub(crate) fn str_eq(a: &str, b: &str) -> (r: bool)
    ensures
        r == (a@ == b@),
{
    match compare_text(a, b) {
        Cmp::Equal => true,
        _ => false,
    }
}

/// Lexicographic order on character sequences, comparing characters by code point. This is
/// the order of `str` and `String` (UTF-8 byte order coincides with code point order).
pub open spec fn lex_lt(a: Seq<char>, b: Seq<char>) -> bool
    decreases a.len(),
{
    if a.len() == 0 {
        b.len() > 0
    } else if b.len() == 0 {
        false
    } else if a[0] != b[0] {
        (a[0] as int) < (b[0] as int)
    } else {
        lex_lt(a.drop_first(), b.drop_first())
    }
}

/// Lexicographic order is irreflexive.
pub proof fn lemma_lex_irreflexive(a: Seq<char>)
    ensures
        !lex_lt(a, a),
    decreases a.len(),
{
    if a.len() > 0 {
        lemma_lex_irreflexive(a.drop_first());
    }
}

/// Any two sequences are equal or ordered one way, and not both ways.
pub proof fn lemma_lex_total(a: Seq<char>, b: Seq<char>)
    ensures
        a == b || lex_lt(a, b) || lex_lt(b, a),
        !(lex_lt(a, b) && lex_lt(b, a)),
    decreases a.len(),
{
    if a.len() > 0 && b.len() > 0 {
        if a[0] == b[0] {
            lemma_lex_total(a.drop_first(), b.drop_first());
            if a.drop_first() == b.drop_first() {
                assert(a =~= seq![a[0]] + a.drop_first());
                assert(b =~= seq![b[0]] + b.drop_first());
            }
        } else {
            assert((a[0] as int) != (b[0] as int));
        }
    } else if a.len() == 0 && b.len() == 0 {
        assert(a =~= b);
    }
}

/// Lexicographic order is transitive.
pub proof fn lemma_lex_transitive(a: Seq<char>, b: Seq<char>, c: Seq<char>)
    requires
        lex_lt(a, b),
        lex_lt(b, c),
    ensures
        lex_lt(a, c),
    decreases a.len(),
{
    if a.len() > 0 && b.len() > 0 && c.len() > 0 {
        if a[0] == b[0] && b[0] == c[0] {
            lemma_lex_transitive(a.drop_first(), b.drop_first(), c.drop_first());
        }
    }
}

/// Sequences that agree on their first `i` characters compare as their remainders do.
proof fn lemma_lex_skip(a: Seq<char>, b: Seq<char>, i: int)
    requires
        0 <= i <= a.len(),
        i <= b.len(),
        forall|j: int| 0 <= j < i ==> a[j] == b[j],
    ensures
        lex_lt(a, b) == lex_lt(a.skip(i), b.skip(i)),
    decreases i,
{
    if i > 0 {
        lemma_lex_skip(a.drop_first(), b.drop_first(), i - 1);
        assert(a.drop_first().skip(i - 1) =~= a.skip(i));
        assert(b.drop_first().skip(i - 1) =~= b.skip(i));
    } else {
        assert(a.skip(0) =~= a);
        assert(b.skip(0) =~= b);
    }
}

/// The result of comparing two texts.
#[derive(Clone, Copy, Debug, PartialEq, Eq, Structural)]
pub enum Cmp {
    Less,
    Equal,
    Greater,
}

/// Compares two texts in lexicographic order.
pub fn compare_text(a: &str, b: &str) -> (r: Cmp)
    ensures
        r == Cmp::Less <==> lex_lt(a@, b@),
        r == Cmp::Equal <==> a@ == b@,
        r == Cmp::Greater <==> lex_lt(b@, a@),
{
    proof {
        lemma_lex_total(a@, b@);
        lemma_lex_irreflexive(a@);
    }
    let la = a.unicode_len();
    let lb = b.unicode_len();
    let mut i: usize = 0;
    while i < la && i < lb
        invariant
            la == a@.len(),
            lb == b@.len(),
            0 <= i <= la,
            i <= lb,
            forall|j: int| 0 <= j < i ==> a@[j] == b@[j],
        decreases la - i,
    {
        let ca = a.get_char(i);
        let cb = b.get_char(i);
        if (ca as u32) != (cb as u32) {
            proof {
                lemma_lex_skip(a@, b@, i as int);
                lemma_lex_skip(b@, a@, i as int);
                assert(a@.skip(i as int)[0] == ca);
                assert(b@.skip(i as int)[0] == cb);
            }
            if (ca as u32) < (cb as u32) {
                return Cmp::Less;
            } else {
                return Cmp::Greater;
            }
        }
        i = i + 1;
    }
    proof {
        lemma_lex_skip(a@, b@, i as int);
        lemma_lex_skip(b@, a@, i as int);
    }
    if la < lb {
        Cmp::Less
    } else if lb < la {
        Cmp::Greater
    } else {
        assert(a@ =~= b@);
        Cmp::Equal
    }
}

/// Unicode `White_Space` characters (the definition `char::is_whitespace` documents).
pub open spec fn is_white(c: char) -> bool {
    let n = c as int;
    (0x09 <= n <= 0x0d) || n == 0x20 || n == 0x85 || n == 0xa0 || n == 0x1680
        || (0x2000 <= n <= 0x200a) || n == 0x2028 || n == 0x2029 || n == 0x202f || n == 0x205f
        || n == 0x3000
}

fn is_white_exec(c: char) -> (r: bool)
    ensures
        r == is_white(c),
{
    let n = c as u32;
    (0x09 <= n && n <= 0x0d) || n == 0x20 || n == 0x85 || n == 0xa0 || n == 0x1680
        || (0x2000 <= n && n <= 0x200a) || n == 0x2028 || n == 0x2029 || n == 0x202f || n == 0x205f
        || n == 0x3000
}

/// The number of leading characters satisfying `is_white`.
pub open spec fn white_prefix(s: Seq<char>) -> nat
    decreases s.len(),
{
    if s.len() == 0 || !is_white(s[0]) {
        0
    } else {
        1 + white_prefix(s.drop_first())
    }
}

/// The number of trailing characters satisfying `is_white`.
pub open spec fn white_suffix(s: Seq<char>) -> nat
    decreases s.len(),
{
    if s.len() == 0 || !is_white(s.last()) {
        0
    } else {
        1 + white_suffix(s.drop_last())
    }
}

/// `s` without leading and trailing whitespace (`str::trim`).
pub open spec fn trimmed(s: Seq<char>) -> Seq<char> {
    if white_prefix(s) >= s.len() {
        Seq::empty()
    } else {
        s.subrange(white_prefix(s) as int, s.len() - white_suffix(s))
    }
}

proof fn lemma_white_prefix(s: Seq<char>, j: int)
    requires
        0 <= j <= s.len(),
        forall|k: int| 0 <= k < j ==> is_white(#[trigger] s[k]),
        j < s.len() ==> !is_white(s[j]),
    ensures
        white_prefix(s) == j,
    decreases j,
{
    if j > 0 {
        let r = s.drop_first();
        assert forall|k: int| 0 <= k < j - 1 implies is_white(#[trigger] r[k]) by {
            assert(r[k] == s[k + 1]);
        }
        if j - 1 < r.len() {
            assert(r[j - 1] == s[j]);
        }
        lemma_white_prefix(r, j - 1);
    }
}

proof fn lemma_white_suffix(s: Seq<char>, j: int)
    requires
        0 <= j <= s.len(),
        forall|k: int| s.len() - j <= k < s.len() ==> is_white(#[trigger] s[k]),
        j < s.len() ==> !is_white(s[s.len() - j - 1]),
    ensures
        white_suffix(s) == j,
    decreases j,
{
    if j > 0 {
        let r = s.drop_last();
        assert forall|k: int| r.len() - (j - 1) <= k < r.len() implies is_white(#[trigger] r[k]) by {
            assert(r[k] == s[k]);
        }
        if j - 1 < r.len() {
            assert(r[r.len() - (j - 1) - 1] == s[s.len() - j - 1]);
        }
        lemma_white_suffix(r, j - 1);
    }
}

/// `s` without leading and trailing whitespace (`str::trim`).
pub fn trim(s: &str) -> (r: String)
    ensures
        r@ == trimmed(s@),
{
    let n = s.unicode_len();
    let mut i: usize = 0;
    while i < n && is_white_exec(s.get_char(i))
        invariant
            n == s@.len(),
            0 <= i <= n,
            forall|k: int| 0 <= k < i ==> is_white(#[trigger] s@[k]),
        decreases n - i,
    {
        i = i + 1;
    }
    proof { lemma_white_prefix(s@, i as int); }
    if i == n {
        return String::new();
    }
    let mut j: usize = 0;
    while j < n - i && is_white_exec(s.get_char(n - j - 1))
        invariant
            n == s@.len(),
            i < n,
            0 <= j <= n - i,
            forall|k: int| n - j <= k < n ==> is_white(#[trigger] s@[k]),
            !is_white(s@[i as int]),
        decreases n - i - j,
    {
        j = j + 1;
    }
    proof { lemma_white_suffix(s@, j as int); }
    s.substring_char(i, n - j).to_owned()
}

/// `s` without its trailing NUL characters (`str::trim_end_matches('\0')`).
pub open spec fn strip_trailing_nuls(s: Seq<char>) -> Seq<char>
    decreases s.len(),
{
    if s.len() > 0 && s.last() == '\0' {
        strip_trailing_nuls(s.drop_last())
    } else {
        s
    }
}

/// `s` without its trailing NUL characters (`str::trim_end_matches('\0')`).
pub fn trim_trailing_nuls(s: &str) -> (r: String)
    ensures
        r@ == strip_trailing_nuls(s@),
{
    let n = s.unicode_len();
    let mut j: usize = n;
    assert(s@.subrange(0, n as int) =~= s@);
    while j > 0 && s.get_char(j - 1) == '\0'
        invariant
            n == s@.len(),
            0 <= j <= n,
            strip_trailing_nuls(s@) == strip_trailing_nuls(s@.subrange(0, j as int)),
        decreases j,
    {
        assert(s@.subrange(0, j as int).drop_last() =~= s@.subrange(0, j - 1));
        j = j - 1;
    }
    s.substring_char(0, j).to_owned()
}

/// `s` with every newline replaced by ", ".
pub open spec fn newlines_to_commas(s: Seq<char>) -> Seq<char>
    decreases s.len(),
{
    if s.len() == 0 {
        Seq::empty()
    } else {
        newlines_to_commas(s.drop_last()) + if s.last() == '\n' { seq![',', ' '] } else { seq![s.last()] }
    }
}

/// `s` with every newline replaced by ", " (`str::replace('\n', ", ")`).
pub fn replace_newlines(s: &str) -> (r: String)
    ensures
        r@ == newlines_to_commas(s@),
{
    let n = s.unicode_len();
    let mut out = String::new();
    let mut i: usize = 0;
    while i < n
        invariant
            n == s@.len(),
            0 <= i <= n,
            out@ == newlines_to_commas(s@.subrange(0, i as int)),
        decreases n - i,
    {
        let c = s.get_char(i);
        assert(s@.subrange(0, i + 1).drop_last() =~= s@.subrange(0, i as int));
        if c == '\n' {
            push_str(&mut out, ", ");
            proof {
                reveal_strlit(", ");
            }
            assert(", "@ =~= seq![',', ' ']);
        } else {
            push_char(&mut out, c);
        }
        i = i + 1;
    }
    assert(s@.subrange(0, n as int) =~= s@);
    out
}

/// The outcome of reading a decimal `i32` (`str::parse::<i32>`).
#[derive(Clone, Copy, Debug, PartialEq, Eq, Structural)]
pub enum IntParse {
    Value(i32),
    Empty,
    InvalidDigit,
    PosOverflow,
    NegOverflow,
}

pub open spec fn is_digit(c: char) -> bool {
    '0' <= c <= '9'
}

/// Reads the decimal digits `d` after the value `acc` read so far, adding (or, for a negative
/// number, subtracting) each digit, stopping at the first character that is not a digit or at
/// the first step that leaves the `i32` range.
pub open spec fn scan_digits(d: Seq<char>, acc: int, positive: bool) -> IntParse
    decreases d.len(),
{
    if d.len() == 0 {
        IntParse::Value(acc as i32)
    } else if !is_digit(d[0]) {
        IntParse::InvalidDigit
    } else {
        let v = d[0] as int - '0' as int;
        let next = if positive { acc * 10 + v } else { acc * 10 - v };
        if next > i32::MAX {
            IntParse::PosOverflow
        } else if next < i32::MIN {
            IntParse::NegOverflow
        } else {
            scan_digits(d.drop_first(), next, positive)
        }
    }
}

/// `str::parse::<i32>`: an optional sign followed by at least one decimal digit.
pub open spec fn parse_i32(s: Seq<char>) -> IntParse {
    if s.len() == 0 {
        IntParse::Empty
    } else if s.len() == 1 && (s[0] == '+' || s[0] == '-') {
        IntParse::InvalidDigit
    } else if s[0] == '+' {
        scan_digits(s.drop_first(), 0, true)
    } else if s[0] == '-' {
        scan_digits(s.drop_first(), 0, false)
    } else {
        scan_digits(s, 0, true)
    }
}

/// Reads a decimal `i32` as `str::parse::<i32>` does.
pub fn parse_int(s: &str) -> (r: IntParse)
    ensures
        r == parse_i32(s@),
{
    let n = s.unicode_len();
    if n == 0 {
        return IntParse::Empty;
    }
    let first = s.get_char(0);
    if n == 1 && (first == '+' || first == '-') {
        return IntParse::InvalidDigit;
    }
    let positive = first != '-';
    let mut i: usize = if first == '+' || first == '-' { 1 } else { 0 };
    let ghost digits = if first == '+' || first == '-' { s@.drop_first() } else { s@ };
    assert(s@.skip(i as int) =~= digits);
    let mut acc: i64 = 0;
    while i < n
        invariant
            n == s@.len(),
            0 <= i <= n,
            i32::MIN <= acc <= i32::MAX,
            parse_i32(s@) == scan_digits(s@.skip(i as int), acc as int, positive),
        decreases n - i,
    {
        let c = s.get_char(i);
        assert(s@.skip(i as int)[0] == c);
        assert(s@.skip(i as int).drop_first() =~= s@.skip(i + 1));
        if !('0' <= c && c <= '9') {
            return IntParse::InvalidDigit;
        }
        let v = (c as u32 - '0' as u32) as i64;
        let next = if positive { acc * 10 + v } else { acc * 10 - v };
        if next > i32::MAX as i64 {
            return IntParse::PosOverflow;
        }
        if next < i32::MIN as i64 {
            return IntParse::NegOverflow;
        }
        acc = next;
        i = i + 1;
    }
    assert(s@.skip(i as int).len() == 0);
    IntParse::Value(acc as i32)
}

/// The lowercase form of a text under Unicode case mapping (`str::to_lowercase`).
pub uninterp spec fn lowercase_text(s: Seq<char>) -> Seq<char>;

/// `str::to_lowercase`.
#[verifier::external_body]
pub(crate) fn to_lowercase(s: &str) -> (r: String)
    ensures
        r@ == lowercase_text(s@),
{
    s.to_lowercase()
}

/// The decimal digit character for `d`.
pub open spec fn digit_char(d: nat) -> char {
    if d == 0 { '0' } else if d == 1 { '1' } else if d == 2 { '2' } else if d == 3 { '3' }
    else if d == 4 { '4' } else if d == 5 { '5' } else if d == 6 { '6' } else if d == 7 { '7' }
    else if d == 8 { '8' } else { '9' }
}

/// Decimal rendering of a natural number, without leading zeros.
pub open spec fn decimal(n: nat) -> Seq<char>
    decreases n,
{
    if n < 10 {
        seq![digit_char(n)]
    } else {
        decimal(n / 10).push(digit_char(n % 10))
    }
}

/// Decimal rendering of an integer, with a leading '-' for negative values.
pub open spec fn signed_decimal(n: int) -> Seq<char> {
    if n < 0 {
        seq!['-'].add(decimal((-n) as nat))
    } else {
        decimal(n as nat)
    }
}

fn digit(d: u64) -> (c: char)
    requires
        d < 10,
    ensures
        c == digit_char(d as nat),
{
    if d == 0 { '0' } else if d == 1 { '1' } else if d == 2 { '2' } else if d == 3 { '3' }
    else if d == 4 { '4' } else if d == 5 { '5' } else if d == 6 { '6' } else if d == 7 { '7' }
    else if d == 8 { '8' } else { '9' }
}

/// Appends the decimal rendering of `n` to `buf`.
pub fn push_decimal(buf: &mut String, n: u64)
    ensures
        final(buf)@ == old(buf)@ + decimal(n as nat),
    decreases n,
{
    if n < 10 {
        push_char(buf, digit(n));
    } else {
        push_decimal(buf, n / 10);
        push_char(buf, digit(n % 10));
    }
}

/// Appends the decimal rendering of the signed value `n` to `buf`.
pub fn push_signed_decimal(buf: &mut String, n: i64)
    ensures
        final(buf)@ == old(buf)@ + signed_decimal(n as int),
{
    if n < 0 {
        push_char(buf, '-');
        let m: u64 = if n == i64::MIN { 9223372036854775808u64 } else { (-n) as u64 };
        push_decimal(buf, m);
        assert(seq!['-'].add(decimal(m as nat)) == seq!['-'] + decimal((-(n as int)) as nat));
    } else {
        push_decimal(buf, n as u64);
    }
}

} // verus!
