//! Small text utilities used by the protocol code: whitespace trimming,
//! exact string comparison, decimal rendering of integers, the check of
//! floating-point literals, and XML escaping.
use vstd::prelude::*;

verus! {

/// Unicode `White_Space` characters, the set that `char::is_whitespace` uses.
pub open spec fn is_ws(c: char) -> bool {
    let n = c as u32;
    ||| 9 <= n <= 13
    ||| n == 32
    ||| n == 0x85
    ||| n == 0xA0
    ||| n == 0x1680
    ||| 0x2000 <= n <= 0x200A
    ||| n == 0x2028
    ||| n == 0x2029
    ||| n == 0x202F
    ||| n == 0x205F
    ||| n == 0x3000
}

pub open spec fn trim_start_spec(s: Seq<char>) -> Seq<char>
    decreases s.len(),
{
    if s.len() > 0 && is_ws(s[0]) {
        trim_start_spec(s.drop_first())
    } else {
        s
    }
}

pub open spec fn trim_end_spec(s: Seq<char>) -> Seq<char>
    decreases s.len(),
{
    if s.len() > 0 && is_ws(s.last()) {
        trim_end_spec(s.drop_last())
    } else {
        s
    }
}

/// `s` without leading and trailing whitespace, as `str::trim` computes it.
pub open spec fn trim_spec(s: Seq<char>) -> Seq<char> {
    trim_end_spec(trim_start_spec(s))
}

/// Whether `c` is a Unicode whitespace character.
pub fn is_whitespace(c: char) -> (r: bool)
    ensures
        r == is_ws(c),
{
    let n = c as u32;
    (9 <= n && n <= 13) || n == 32 || n == 0x85 || n == 0xA0 || n == 0x1680 || (0x2000 <= n && n
        <= 0x200A) || n == 0x2028 || n == 0x2029 || n == 0x202F || n == 0x205F || n == 0x3000
}

/// The slice of `s` without leading and trailing whitespace.
pub fn trim(s: &str) -> (r: &str)
    ensures
        r@ == trim_spec(s@),
{
    let n = s.unicode_len();
    let mut i: usize = 0;
    proof {
        assert(s@.subrange(0, n as int) =~= s@);
    }
    while i < n && is_whitespace(s.get_char(i))
        invariant
            i <= n,
            n == s@.len(),
            trim_start_spec(s@) == trim_start_spec(s@.subrange(i as int, n as int)),
        decreases n - i,
    {
        proof {
            assert(s@.subrange(i as int, n as int).drop_first() =~= s@.subrange(
                i + 1,
                n as int,
            ));
        }
        i = i + 1;
    }
    let ghost rest = s@.subrange(i as int, n as int);
    assert(trim_start_spec(s@) == rest);
    let mut j: usize = n;
    while j > i && is_whitespace(s.get_char(j - 1))
        invariant
            i <= j <= n,
            n == s@.len(),
            rest == s@.subrange(i as int, n as int),
            trim_end_spec(rest) == trim_end_spec(s@.subrange(i as int, j as int)),
        decreases j,
    {
        proof {
            assert(s@.subrange(i as int, j as int).drop_last() =~= s@.subrange(
                i as int,
                j - 1,
            ));
        }
        j = j - 1;
    }
    s.substring_char(i, j)
}

/// Whether the two strings hold the same characters.
pub fn str_equal(a: &str, b: &str) -> (r: bool)
    ensures
        r == (a@ == b@),
{
    let n = a.unicode_len();
    if n != b.unicode_len() {
        return false;
    }
    let mut i: usize = 0;
    while i < n
        invariant
            i <= n,
            n == a@.len(),
            n == b@.len(),
            forall|k: int| 0 <= k < i ==> a@[k] == b@[k],
        decreases n - i,
    {
        if a.get_char(i) != b.get_char(i) {
            return false;
        }
        i = i + 1;
    }
    assert(a@ =~= b@);
    true
}

/// Whether `s` ends with `suffix`.
pub open spec fn ends_with_spec(s: Seq<char>, suffix: Seq<char>) -> bool {
    s.len() >= suffix.len() && s.subrange(s.len() - suffix.len(), s.len() as int) == suffix
}

/// Whether `s` ends with `suffix`.
pub fn str_ends_with(s: &str, suffix: &str) -> (r: bool)
    ensures
        r == ends_with_spec(s@, suffix@),
{
    let n = s.unicode_len();
    let m = suffix.unicode_len();
    if m > n {
        return false;
    }
    let mut i: usize = 0;
    while i < m
        invariant
            i <= m,
            m <= n,
            n == s@.len(),
            m == suffix@.len(),
            forall|k: int| 0 <= k < i ==> s@[n - m + k] == suffix@[k],
        decreases m - i,
    {
        if s.get_char(n - m + i) != suffix.get_char(i) {
            assert(s@.subrange(n - m, n as int)[i as int] != suffix@[i as int]);
            return false;
        }
        i = i + 1;
    }
    assert(s@.subrange(n - m, n as int) =~= suffix@);
    true
}

/// The decimal digit `d` (0 to 9) as a character.
pub open spec fn digit_char(d: int) -> char {
    seq!['0', '1', '2', '3', '4', '5', '6', '7', '8', '9'][d]
}

/// The decimal representation of `n`, without leading zeros.
pub open spec fn decimal(n: nat) -> Seq<char>
    decreases n,
{
    if n < 10 {
        seq![digit_char(n as int)]
    } else {
        decimal(n / 10).push(digit_char((n % 10) as int))
    }
}

/// The decimal representation of `i`, with a leading `-` when it is negative.
pub open spec fn signed_decimal(i: int) -> Seq<char> {
    if i < 0 {
        seq!['-'] + decimal((-i) as nat)
    } else {
        decimal(i as nat)
    }
}

fn digit_str(d: u64) -> (r: &'static str)
    requires
        d < 10,
    ensures
        r@ == seq![digit_char(d as int)],
{
    proof {
        reveal_strlit("0");
        reveal_strlit("1");
        reveal_strlit("2");
        reveal_strlit("3");
        reveal_strlit("4");
        reveal_strlit("5");
        reveal_strlit("6");
        reveal_strlit("7");
        reveal_strlit("8");
        reveal_strlit("9");
    }
    match d {
        0 => "0",
        1 => "1",
        2 => "2",
        3 => "3",
        4 => "4",
        5 => "5",
        6 => "6",
        7 => "7",
        8 => "8",
        _ => "9",
    }
}

/// Appends the decimal representation of `n` to `s`.
pub fn append_decimal(s: &mut String, n: u64)
    ensures
        final(s)@ == old(s)@ + decimal(n as nat),
    decreases n,
{
    if n >= 10 {
        append_decimal(s, n / 10);
    }
    s.append(digit_str(n % 10));
    proof {
        if n >= 10 {
            assert(decimal(n as nat) == decimal((n / 10) as nat).push(digit_char((n % 10) as int)));
        }
    }
}

/// Appends the decimal representation of the signed `v` to `s`.
pub fn append_signed(s: &mut String, v: i32)
    ensures
        final(s)@ == old(s)@ + signed_decimal(v as int),
{
    if v < 0 {
        s.append("-");
        proof {
            reveal_strlit("-");
        }
        let m: i64 = v as i64;
        let abs: u64 = (0 - m) as u64;
        append_decimal(s, abs);
        proof {
            assert(old(s)@ + signed_decimal(v as int) =~= old(s)@ + seq!['-'] + decimal(
                abs as nat,
            ));
        }
    } else {
        append_decimal(s, v as u64);
    }
}

/// The characters that stand for `c` in escaped XML text.
pub open spec fn escape_char(c: char) -> Seq<char> {
    if c == '<' {
        seq!['&', 'l', 't', ';']
    } else if c == '>' {
        seq!['&', 'g', 't', ';']
    } else if c == '&' {
        seq!['&', 'a', 'm', 'p', ';']
    } else if c == '\'' {
        seq!['&', 'a', 'p', 'o', 's', ';']
    } else if c == '"' {
        seq!['&', 'q', 'u', 'o', 't', ';']
    } else {
        seq![c]
    }
}

/// `s` with each of `<`, `>`, `&`, `'` and `"` replaced by its XML entity.
pub open spec fn xml_escaped(s: Seq<char>) -> Seq<char>
    decreases s.len(),
{
    if s.len() == 0 {
        Seq::empty()
    } else {
        xml_escaped(s.drop_last()) + escape_char(s.last())
    }
}

/// Escapes text for an XML attribute value or element body by calling
/// `strong_xml::utils::xml_escape`. Claimed: the result replaces each of the
/// five characters `<`, `>`, `&`, `'`, `"` by `&lt;`, `&gt;`, `&amp;`,
/// `&apos;`, `&quot;` and keeps every other character, which is what that
/// function's source does byte by byte.
#[verifier::external_body]
pub(crate) fn escape_xml(raw: &str) -> (r: String)
    ensures
        r@ == xml_escaped(raw@),
{
    strong_xml::utils::xml_escape(raw).into_owned()
}

/// Appends `v` to `s` with XML escaping.
pub fn append_escaped(s: &mut String, v: &str)
    ensures
        final(s)@ == old(s)@ + xml_escaped(v@),
{
    let e = escape_xml(v);
    s.append(e.as_str());
}


/// Whether `c` is an ASCII decimal digit.
pub open spec fn is_digit(c: char) -> bool {
    '0' <= c && c <= '9'
}

/// Whether `c` is `+` or `-`.
pub open spec fn is_sign(c: char) -> bool {
    c == '+' || c == '-'
}

/// `s` without a leading sign.
pub open spec fn unsigned_part(s: Seq<char>) -> Seq<char> {
    if s.len() > 0 && is_sign(s[0]) {
        s.skip(1)
    } else {
        s
    }
}

/// Whether `t` spells the word whose lower-case letters are `lower` and whose
/// upper-case letters are `upper`, each letter in either case.
pub open spec fn spells(t: Seq<char>, lower: Seq<char>, upper: Seq<char>) -> bool {
    &&& t.len() == lower.len()
    &&& forall|i: int| 0 <= i < t.len() ==> t[i] == lower[i] || t[i] == upper[i]
}

/// Digits with at most one decimal point among them, and at least one digit.
pub open spec fn mantissa_text(m: Seq<char>) -> bool {
    &&& forall|i: int| 0 <= i < m.len() ==> is_digit(m[i]) || m[i] == '.'
    &&& forall|i: int, j: int| 0 <= i < j < m.len() ==> !(m[i] == '.' && m[j] == '.')
    &&& exists|i: int| 0 <= i < m.len() && is_digit(m[i])
}

/// An optional sign followed by one digit or more.
pub open spec fn exponent_text(x: Seq<char>) -> bool {
    let d = unsigned_part(x);
    d.len() > 0 && forall|i: int| 0 <= i < d.len() ==> is_digit(d[i])
}

/// A mantissa, followed by `e` or `E` and an exponent where there is one.
pub open spec fn number_text(t: Seq<char>) -> bool {
    ||| mantissa_text(t)
    ||| exists|e: int|
        0 <= e < t.len() && (t[e] == 'e' || t[e] == 'E') && mantissa_text(t.take(e))
            && exponent_text(t.skip(e + 1))
}

/// The decimal floating-point literals that `f64::from_str` accepts: an
/// optional sign, then `inf`, `infinity`, `nan` (in any case) or a number.
pub open spec fn float_text(s: Seq<char>) -> bool {
    let t = unsigned_part(s);
    ||| spells(t, seq!['i', 'n', 'f'], seq!['I', 'N', 'F'])
    ||| spells(
        t,
        seq!['i', 'n', 'f', 'i', 'n', 'i', 't', 'y'],
        seq!['I', 'N', 'F', 'I', 'N', 'I', 'T', 'Y'],
    )
    ||| spells(t, seq!['n', 'a', 'n'], seq!['N', 'A', 'N'])
    ||| number_text(t)
}

/// The message with which `f64::from_str` refuses `s`.
pub open spec fn float_error(s: Seq<char>) -> Seq<char> {
    if s.len() == 0 {
        "cannot parse float from empty string"@
    } else {
        "invalid float literal"@
    }
}

/// Whether the characters of `s` from `start` on spell the word `lower` /
/// `upper`.
fn spells_from(s: &str, start: usize, lower: &str, upper: &str) -> (r: bool)
    requires
        start <= s@.len(),
        lower@.len() == upper@.len(),
    ensures
        r == spells(s@.skip(start as int), lower@, upper@),
{
    let n = s.unicode_len();
    let w = lower.unicode_len();
    if n - start != w {
        return false;
    }
    let mut i: usize = 0;
    while i < w
        invariant
            i <= w,
            n == s@.len(),
            w == lower@.len(),
            w == upper@.len(),
            start + w == n,
            forall|k: int|
                0 <= k < i ==> s@[start + k] == lower@[k] || s@[start + k] == upper@[k],
        decreases w - i,
    {
        let c = s.get_char(start + i);
        if c != lower.get_char(i) && c != upper.get_char(i) {
            assert(s@.skip(start as int)[i as int] == c);
            return false;
        }
        i = i + 1;
    }
    true
}

/// Whether the characters of `s` from `start` on are an exponent.
fn exponent_from(s: &str, start: usize) -> (r: bool)
    requires
        start <= s@.len(),
    ensures
        r == exponent_text(s@.skip(start as int)),
{
    let n = s.unicode_len();
    let mut i = start;
    if i < n && (s.get_char(i) == '+' || s.get_char(i) == '-') {
        i = i + 1;
    }
    let ghost d = s@.skip(i as int);
    assert(d =~= unsigned_part(s@.skip(start as int)));
    if i == n {
        return false;
    }
    let first = i;
    while i < n
        invariant
            first <= i <= n,
            n == s@.len(),
            d == s@.skip(first as int),
            d == unsigned_part(s@.skip(start as int)),
            forall|k: int| first <= k < i ==> is_digit(s@[k]),
        decreases n - i,
    {
        let c = s.get_char(i);
        if !('0' <= c && c <= '9') {
            assert(d[i - first] == c);
            return false;
        }
        i = i + 1;
    }
    assert forall|k: int| 0 <= k < d.len() implies is_digit(d[k]) by {
        assert(d[k] == s@[first + k]);
    }
    true
}

/// Whether `s` is a literal that `f64::from_str` accepts.
pub fn is_float_literal(s: &str) -> (r: bool)
    ensures
        r == float_text(s@),
{
    let n = s.unicode_len();
    let mut start: usize = 0;
    if n > 0 && (s.get_char(0) == '+' || s.get_char(0) == '-') {
        start = 1;
    }
    let ghost t = s@.skip(start as int);
    assert(t =~= unsigned_part(s@));
    proof {
        reveal_strlit("inf");
        reveal_strlit("INF");
        reveal_strlit("infinity");
        reveal_strlit("INFINITY");
        reveal_strlit("nan");
        reveal_strlit("NAN");
        assert("inf"@ =~= seq!['i', 'n', 'f']);
        assert("INF"@ =~= seq!['I', 'N', 'F']);
        assert("infinity"@ =~= seq!['i', 'n', 'f', 'i', 'n', 'i', 't', 'y']);
        assert("INFINITY"@ =~= seq!['I', 'N', 'F', 'I', 'N', 'I', 'T', 'Y']);
        assert("nan"@ =~= seq!['n', 'a', 'n']);
        assert("NAN"@ =~= seq!['N', 'A', 'N']);
    }
    if spells_from(s, start, "inf", "INF") || spells_from(s, start, "infinity", "INFINITY")
        || spells_from(s, start, "nan", "NAN") {
        return true;
    }
    assert(float_text(s@) == number_text(t));
    // The mantissa runs up to the first character that is neither a digit nor a point.
    let mut i = start;
    let mut dot: bool = false;
    let mut digit: bool = false;
    let ghost mut dot_at: int = 0;
    while i < n && (('0' <= s.get_char(i) && s.get_char(i) <= '9') || s.get_char(i) == '.')
        invariant
            start <= i <= n,
            n == s@.len(),
            t == s@.skip(start as int),
            float_text(s@) == number_text(t),
            forall|k: int| 0 <= k < i - start ==> is_digit(t[k]) || t[k] == '.',
            dot ==> 0 <= dot_at < i - start && t[dot_at] == '.',
            !dot ==> forall|k: int| 0 <= k < i - start ==> t[k] != '.',
            dot ==> forall|k: int| 0 <= k < i - start && k != dot_at ==> t[k] != '.',
            digit <==> exists|k: int| 0 <= k < i - start && is_digit(t[k]),
        decreases n - i,
    {
        let c = s.get_char(i);
        assert(t[i - start] == c);
        if c == '.' {
            if dot {
                proof {
                    lemma_two_points(t, dot_at, i - start);
                }
                return false;
            }
            dot = true;
            proof {
                dot_at = i - start;
            }
        } else {
            digit = true;
        }
        i = i + 1;
    }
    let ghost p: int = i - start;
    let ghost m = t.take(p);
    proof {
        assert(p == t.len() || !(is_digit(t[p]) || t[p] == '.'));
        assert forall|a: int, b: int| 0 <= a < b < m.len() implies !(m[a] == '.' && m[b] == '.') by {
            assert(m[a] == t[a] && m[b] == t[b]);
        }
        if digit {
            let k = choose|k: int| 0 <= k < p && is_digit(t[k]);
            assert(m[k] == t[k]);
        } else {
            assert forall|k: int| 0 <= k < m.len() implies !is_digit(m[k]) by {
                assert(m[k] == t[k]);
            }
        }
        assert(mantissa_text(m) == digit);
        lemma_mantissa_split(t, p);
    }
    if !digit {
        return false;
    }
    if i == n {
        assert(m =~= t);
        return true;
    }
    let c = s.get_char(i);
    assert(t[p] == c);
    if c != 'e' && c != 'E' {
        return false;
    }
    let r = exponent_from(s, i + 1);
    assert(s@.skip(i + 1) =~= t.skip(p + 1));
    r
}

/// Two points in the run of digits and points at the head of `t` rule out a number.
proof fn lemma_two_points(t: Seq<char>, a: int, b: int)
    requires
        0 <= a < b < t.len(),
        t[a] == '.',
        t[b] == '.',
        forall|k: int| 0 <= k < b ==> is_digit(t[k]) || t[k] == '.',
    ensures
        !number_text(t),
{
    assert(!mantissa_text(t));
    assert forall|e: int|
        0 <= e < t.len() && (t[e] == 'e' || t[e] == 'E') implies !mantissa_text(t.take(e)) by {
        if e < b {
            assert(is_digit(t[e]) || t[e] == '.');
        } else {
            assert(t.take(e)[a] == '.' && t.take(e)[b] == '.');
        }
    }
}

/// Where the head of `t` that holds only digits and points ends at `p`, `t`
/// is a number exactly when that head is a mantissa and either it is all of
/// `t` or an exponent mark and an exponent follow it.
proof fn lemma_mantissa_split(t: Seq<char>, p: int)
    requires
        0 <= p <= t.len(),
        forall|k: int| 0 <= k < p ==> is_digit(t[k]) || t[k] == '.',
        p == t.len() || !(is_digit(t[p]) || t[p] == '.'),
    ensures
        number_text(t) == (mantissa_text(t.take(p)) && (p == t.len() || ((t[p] == 'e'
            || t[p] == 'E') && exponent_text(t.skip(p + 1))))),
{
    if p == t.len() {
        assert(t.take(p) =~= t);
        assert forall|e: int|
            0 <= e < t.len() && (t[e] == 'e' || t[e] == 'E') implies false by {
            assert(is_digit(t[e]) || t[e] == '.');
        }
    } else {
        assert(!(is_digit(t[p]) || t[p] == '.'));
        assert(!mantissa_text(t));
        assert forall|e: int|
            0 <= e < t.len() && (t[e] == 'e' || t[e] == 'E') && mantissa_text(t.take(e)) implies e
            == p by {
            if e < p {
                assert(is_digit(t[e]) || t[e] == '.');
            } else if e > p {
                assert(t.take(e)[p] == t[p]);
            }
        }
    }
}

} // verus!
