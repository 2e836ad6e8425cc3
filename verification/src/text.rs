//! Text helpers: trimming, stripping enclosing brackets, and the decimal and
//! hexadecimal number forms used by the protocols.
use substring::Substring;
use vstd::prelude::*;

verus! {

/// The characters with the Unicode property `White_Space`.
pub open spec fn is_white_space(c: char) -> bool {
    ||| '\u{9}' <= c <= '\u{d}'
    ||| c == ' '
    ||| c == '\u{85}'
    ||| c == '\u{a0}'
    ||| c == '\u{1680}'
    ||| '\u{2000}' <= c <= '\u{200a}'
    ||| c == '\u{2028}'
    ||| c == '\u{2029}'
    ||| c == '\u{202f}'
    ||| c == '\u{205f}'
    ||| c == '\u{3000}'
}

/// `s` without its leading white space.
pub open spec fn trim_start(s: Seq<char>) -> Seq<char>
    decreases s.len(),
{
    if s.len() > 0 && is_white_space(s[0]) {
        trim_start(s.drop_first())
    } else {
        s
    }
}

/// `s` without its trailing white space.
pub open spec fn trim_end(s: Seq<char>) -> Seq<char>
    decreases s.len(),
{
    if s.len() > 0 && is_white_space(s.last()) {
        trim_end(s.drop_last())
    } else {
        s
    }
}

/// `s` without leading and trailing white space.
pub open spec fn spec_trim(s: Seq<char>) -> Seq<char> {
    trim_end(trim_start(s))
}

/// The characters from index `start` up to index `end` (exclusive), both
/// cut down to the length of `s`; nothing when `end <= start`.
pub open spec fn spec_substring(s: Seq<char>, start: int, end: int) -> Seq<char> {
    if end <= start {
        Seq::empty()
    } else {
        let a = if start < s.len() {
            start
        } else {
            s.len() as int
        };
        let b = if end < s.len() {
            end
        } else {
            s.len() as int
        };
        s.subrange(a, b)
    }
}

/// `str::trim`: the string without leading and trailing white space, white
/// space being the characters with the Unicode property `White_Space`.
#[verifier::external_body]
fn str_trim(s: &str) -> (r: &str)
    ensures
        r@ == spec_trim(s@),
{
    s.trim()
}

/// `Substring::substring` of the `substring` crate: the characters from
/// character index `start` up to character index `end`, both cut down to the
/// length of the string; the empty string when `end <= start`.
#[verifier::external_body]
pub(crate) fn substring_of(s: &str, start: usize, end: usize) -> (r: &str)
    ensures
        r@ == spec_substring(s@, start as int, end as int),
{
    s.substring(start, end)
}

/// Whether `a` and `b` hold the same characters.
pub fn str_equals(a: &str, b: &str) -> (r: bool)
    ensures
        r == (a@ == b@),
{
    let n = a.unicode_len();
    if n != b.unicode_len() {
        return false;
    }
    let mut i: usize = 0;
    while i < n
        invariant
            n == a@.len(),
            n == b@.len(),
            i <= n,
            forall|k: int| 0 <= k < i ==> a@[k] == b@[k],
        decreases n - i,
    {
        if a.get_char(i) != b.get_char(i) {
            return false;
        }
        i = i + 1;
    }
    assert(a@ =~= b@);
    true
}

/// `p` occurs in `s`.
pub open spec fn contains_seq(s: Seq<char>, p: Seq<char>) -> bool {
    exists|i: int| 0 <= i && i + p.len() <= s.len() && #[trigger] s.subrange(i, i + p.len()) == p
}

/// Whether `p` occurs in `s`.
pub fn str_contains(s: &str, p: &str) -> (r: bool)
    ensures
        r == contains_seq(s@, p@),
{
    let n = s.unicode_len();
    let m = p.unicode_len();
    if m > n {
        assert forall|i: int| 0 <= i && i + p@.len() <= s@.len() implies #[trigger] s@.subrange(i, i + p@.len()) != p@ by {}
        return false;
    }
    let mut i: usize = 0;
    while i <= n - m
        invariant
            n == s@.len(),
            m == p@.len(),
            m <= n,
            i <= n - m + 1,
            forall|k: int| 0 <= k < i ==> #[trigger] s@.subrange(k, k + m) != p@,
        decreases n - m + 1 - i,
    {
        let mut j: usize = 0;
        let mut same = true;
        while j < m
            invariant
                n == s@.len(),
                m == p@.len(),
                i + m <= n,
                j <= m,
                same == forall|q: int| 0 <= q < j ==> s@[i + q] == p@[q],
            decreases m - j,
        {
            if s.get_char(i + j) != p.get_char(j) {
                same = false;
            }
            j = j + 1;
        }
        if same {
            assert(s@.subrange(i as int, i + m) =~= p@);
            return true;
        }
        assert(s@.subrange(i as int, i + m) != p@) by {
            let q = choose|q: int| 0 <= q < m && s@[i + q] != p@[q];
            assert(s@.subrange(i as int, i + m)[q] == s@[i + q]);
        }
        i = i + 1;
    }
    assert forall|k: int| 0 <= k && k + p@.len() <= s@.len() implies #[trigger] s@.subrange(k, k + p@.len()) != p@ by {
        assert(k < i);
    }
    false
}

/// `std::str::from_utf8`: the text that `b` encodes, when it is valid UTF-8.
#[verifier::external_body]
pub(crate) fn utf8_str(b: &[u8]) -> (r: Option<&str>)
    ensures
        r is Some <==> vstd::utf8::valid_utf8(b@),
        r matches Some(s) ==> s@ == vstd::utf8::decode_utf8(b@),
{
    match std::str::from_utf8(b) {
        Ok(s) => Some(s),
        Err(_) => None,
    }
}

/// What removing one enclosing `open`/`close` pair does: the string is
/// trimmed, a leading `open` is removed, and then a trailing `close` is
/// removed, but only when the text left is ASCII (the trailing character is
/// cut by taking the characters up to the byte length minus one, which only
/// reaches the last character when every character is one byte long).
pub open spec fn strip_enclosing(s: Seq<char>, open: char, close: char) -> Seq<char> {
    let t = spec_trim(s);
    let t1 = if t.len() > 0 && t[0] == open {
        t.drop_first()
    } else {
        t
    };
    if t1.len() > 0 && t1.last() == close && vstd::utf8::is_ascii_chars(t1) {
        t1.drop_last()
    } else {
        t1
    }
}

fn strip_enclosing_impl(s: &String, open: char, close: char) -> (r: String)
    ensures
        r@ == strip_enclosing(s@, open, close),
{
    let t = str_trim(s.as_str());
    let n = t.unicode_len();
    let t1 = if n > 0 && t.get_char(0) == open {
        substring_of(t, 1, n)
    } else {
        t
    };
    assert(n > 0 && t@[0] == open ==> t1@ =~= t@.drop_first());
    let n1 = t1.unicode_len();
    let t2 = if n1 > 0 && t1.get_char(n1 - 1) == close && t1.is_ascii() {
        substring_of(t1, 0, n1 - 1)
    } else {
        t1
    };
    assert(n1 > 0 && t1@.last() == close && vstd::utf8::is_ascii_chars(t1@) ==> t2@
        =~= t1@.drop_last());
    String::from_str(t2)
}

/// All the characters of `s` are white space.
pub open spec fn all_white_space(s: Seq<char>) -> bool {
    forall|i: int| 0 <= i < s.len() ==> is_white_space(#[trigger] s[i])
}

proof fn lemma_trim_start_white_prefix(a: Seq<char>, t: Seq<char>)
    requires
        all_white_space(a),
    ensures
        trim_start(a + t) == trim_start(t),
    decreases a.len(),
{
    if a.len() == 0 {
        assert(a + t =~= t);
    } else {
        assert((a + t)[0] == a[0]);
        assert((a + t).drop_first() =~= a.drop_first() + t);
        lemma_trim_start_white_prefix(a.drop_first(), t);
    }
}

proof fn lemma_trim_end_white_suffix(t: Seq<char>, b: Seq<char>)
    requires
        all_white_space(b),
    ensures
        trim_end(t + b) == trim_end(t),
    decreases b.len(),
{
    if b.len() == 0 {
        assert(t + b =~= t);
    } else {
        assert((t + b).last() == b.last());
        assert((t + b).drop_last() =~= t + b.drop_last());
        lemma_trim_end_white_suffix(t, b.drop_last());
    }
}

proof fn lemma_trim_start_append(s: Seq<char>, b: Seq<char>)
    ensures
        trim_start(s + b) == if trim_start(s).len() > 0 {
            trim_start(s) + b
        } else {
            trim_start(b)
        },
    decreases s.len(),
{
    if s.len() == 0 {
        assert(s + b =~= b);
    } else {
        assert((s + b)[0] == s[0]);
        if is_white_space(s[0]) {
            assert((s + b).drop_first() =~= s.drop_first() + b);
            lemma_trim_start_append(s.drop_first(), b);
        }
    }
}

proof fn lemma_trim_start_white(b: Seq<char>)
    requires
        all_white_space(b),
    ensures
        trim_start(b).len() == 0,
    decreases b.len(),
{
    if b.len() > 0 {
        assert(is_white_space(b[0]));
        lemma_trim_start_white(b.drop_first());
    }
}

/// White space around a string changes neither its trimmed text nor what
/// removing an enclosing pair (`trim_brackets`, `trim_braces`) gives.
pub proof fn law_strip_ignores_white_space(a: Seq<char>, s: Seq<char>, b: Seq<char>, open: char, close: char)
    requires
        all_white_space(a),
        all_white_space(b),
    ensures
        spec_trim(a + s + b) == spec_trim(s),
        strip_enclosing(a + s + b, open, close) == strip_enclosing(s, open, close),
{
    assert(a + s + b =~= a + (s + b));
    lemma_trim_start_white_prefix(a, s + b);
    lemma_trim_start_append(s, b);
    if trim_start(s).len() > 0 {
        lemma_trim_end_white_suffix(trim_start(s), b);
    } else {
        lemma_trim_start_white(b);
        assert(trim_end(trim_start(b)) == trim_start(b));
        assert(trim_end(trim_start(s)) == trim_start(s));
        assert(trim_start(b) =~= trim_start(s));
    }
}

/// Trims `s` and removes one enclosing pair of square brackets.
pub fn trim_brackets(s: &String) -> (r: String)
    ensures
        r@ == strip_enclosing(s@, '[', ']'),
{
    strip_enclosing_impl(s, '[', ']')
}

/// Trims `s` and removes one enclosing pair of curly braces.
pub fn trim_braces(s: &String) -> (r: String)
    ensures
        r@ == strip_enclosing(s@, '{', '}'),
{
    strip_enclosing_impl(s, '{', '}')
}


/// The value of the digit `b` in base `radix` (2 to 36): `0`-`9`, then
/// letters of either case.
pub open spec fn digit_value(b: u8, radix: nat) -> Option<nat> {
    let v: int = if 48 <= b <= 57 {
        b - 48
    } else if 97 <= b <= 122 {
        b - 97 + 10
    } else if 65 <= b <= 90 {
        b - 65 + 10
    } else {
        radix as int
    };
    if v < radix {
        Some(v as nat)
    } else {
        None
    }
}

/// Every byte of `s` is a digit in base `radix`.
pub open spec fn all_digits(s: Seq<u8>, radix: nat) -> bool {
    forall|i: int| 0 <= i < s.len() ==> #[trigger] digit_value(s[i], radix) is Some
}

/// The number the digits `s` denote in base `radix`.
pub open spec fn digits_value(s: Seq<u8>, radix: nat) -> nat
    decreases s.len(),
{
    if s.len() == 0 {
        0
    } else {
        digits_value(s.drop_last(), radix) * radix + match digit_value(s.last(), radix) {
            Some(d) => d,
            None => 0,
        }
    }
}

/// What `usize::from_str_radix` accepts: an optional `+`, then at least one
/// digit; the number they denote, whether or not it fits a `usize`.
pub open spec fn spec_parse_unsigned(s: Seq<u8>, radix: nat) -> Option<nat> {
    let d = if s.len() > 0 && s[0] == 43u8 {
        s.drop_first()
    } else {
        s
    };
    if d.len() > 0 && all_digits(d, radix) {
        Some(digits_value(d, radix))
    } else {
        None
    }
}

/// Parses the unsigned number written in base `radix` in `bytes[start..end]`
/// as `usize::from_str_radix` does: `None` when the text is not an optional
/// `+` followed by at least one digit, or when the number does not fit.
pub fn parse_unsigned(bytes: &[u8], start: usize, end: usize, radix: u32) -> (r: Option<usize>)
    requires
        start <= end <= bytes@.len(),
        2 <= radix <= 36,
    ensures
        match spec_parse_unsigned(bytes@.subrange(start as int, end as int), radix as nat) {
            Some(v) => if v <= usize::MAX {
                r == Some(v as usize)
            } else {
                r is None
            },
            None => r is None,
        },
{
    let ghost s = bytes@.subrange(start as int, end as int);
    let mut i = start;
    if i < end && bytes[i] == 43u8 {
        i = i + 1;
    }
    let ghost d = bytes@.subrange(i as int, end as int);
    assert(d =~= if s.len() > 0 && s[0] == 43u8 {
        s.drop_first()
    } else {
        s
    });
    if i == end {
        return None;
    }
    let first = i;
    let mut acc: usize = 0;
    let mut overflow = false;
    while i < end
        invariant
            first <= i <= end <= bytes@.len(),
            d == bytes@.subrange(first as int, end as int),
            d.len() > 0,
            s == bytes@.subrange(start as int, end as int),
            spec_parse_unsigned(s, radix as nat) == if all_digits(d, radix as nat) {
                Some(digits_value(d, radix as nat))
            } else {
                None::<nat>
            },
            2 <= radix <= 36,
            all_digits(bytes@.subrange(first as int, i as int), radix as nat),
            !overflow ==> acc as nat == digits_value(bytes@.subrange(first as int, i as int), radix as nat),
            overflow ==> digits_value(bytes@.subrange(first as int, i as int), radix as nat) > usize::MAX,
        decreases end - i,
    {
        let b = bytes[i];
        let v: u32 = if 48 <= b && b <= 57 {
            (b - 48) as u32
        } else if 97 <= b && b <= 122 {
            (b - 97 + 10) as u32
        } else if 65 <= b && b <= 90 {
            (b - 65 + 10) as u32
        } else {
            radix
        };
        if v >= radix {
            assert(!all_digits(d, radix as nat)) by {
                let k = i - first;
                assert(0 <= k < d.len());
                assert(d[k] == b);
                assert(digit_value(d[k], radix as nat) is None);
            }
            return None;
        }
        let ghost prev = bytes@.subrange(first as int, i as int);
        let ghost next = bytes@.subrange(first as int, i + 1);
        assert(next.drop_last() =~= prev);
        assert(next.last() == b);
        assert(all_digits(next, radix as nat)) by {
            assert forall|k: int| 0 <= k < next.len() implies #[trigger] digit_value(next[k], radix as nat) is Some by {
                if k < prev.len() {
                    assert(next[k] == prev[k]);
                }
            }
        }
        if !overflow {
            if acc > (usize::MAX - v as usize) / radix as usize {
                overflow = true;
                assert(digits_value(next, radix as nat) > usize::MAX) by (nonlinear_arith)
                    requires
                        digits_value(next, radix as nat) == acc * radix + v,
                        acc > (usize::MAX - v) / radix as int,
                        radix >= 2,
                        v < radix,
                ;
            } else {
                assert(acc * radix + v <= usize::MAX) by (nonlinear_arith)
                    requires
                        acc <= (usize::MAX - v) / radix as int,
                        radix >= 2,
                        v < radix,
                ;
                acc = acc * radix as usize + v as usize;
            }
        } else {
            assert(digits_value(next, radix as nat) > usize::MAX) by (nonlinear_arith)
                requires
                    digits_value(next, radix as nat) >= digits_value(prev, radix as nat) * radix,
                    digits_value(prev, radix as nat) > usize::MAX,
                    radix >= 2,
            ;
        }
        i = i + 1;
    }
    if overflow {
        None
    } else {
        Some(acc)
    }
}

/// The decimal digit characters of `n`.
pub open spec fn decimal(n: nat) -> Seq<char>
    decreases n,
{
    if n < 10 {
        seq![(48 + n) as char]
    } else {
        decimal(n / 10).push((48 + n % 10) as char)
    }
}

fn digit_str(d: u64) -> (r: &'static str)
    requires
        d < 10,
    ensures
        r@ == seq![(48 + d) as char],
{
    proof {
        reveal_strlit("0");
        reveal_strlit("1");
        reveal_strlit("2");
        reveal_strlit("3");
        reveal_strlit("4");
        reveal_strlit("5");
        reveal_strlit("6");
        reveal_strlit("7");
        reveal_strlit("8");
        reveal_strlit("9");
    }
    let r = if d == 0 {
        "0"
    } else if d == 1 {
        "1"
    } else if d == 2 {
        "2"
    } else if d == 3 {
        "3"
    } else if d == 4 {
        "4"
    } else if d == 5 {
        "5"
    } else if d == 6 {
        "6"
    } else if d == 7 {
        "7"
    } else if d == 8 {
        "8"
    } else {
        "9"
    };
    assert(r@ =~= seq![(48 + d) as char]);
    r
}

/// Appends the decimal digits of `n`.
fn push_decimal(out: &mut String, n: u64)
    ensures
        final(out)@ == old(out)@ + decimal(n as nat),
    decreases n,
{
    if n >= 10 {
        push_decimal(out, n / 10);
    }
    out.append(digit_str(n % 10));
    assert(final(out)@ =~= old(out)@ + decimal(n as nat));
}

/// `n` in decimal.
pub fn to_decimal(n: u64) -> (r: String)
    ensures
        r@ == decimal(n as nat),
{
    let mut r = String::new();
    push_decimal(&mut r, n);
    assert(r@ =~= decimal(n as nat));
    r
}
} // verus!
