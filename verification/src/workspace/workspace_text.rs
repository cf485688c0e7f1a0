//! Text helpers the shell's string decisions rest on: Unicode trimming,
//! lower-casing (delegated to the standard library), substring search and
//! string assembly.

use vstd::prelude::*;
use vstd::string::*;

verus! {

/// Unicode `White_Space`, the characters `char::is_whitespace` accepts:
/// U+0009..U+000D, space, U+0085, U+00A0, U+1680, U+2000..U+200A, U+2028,
/// U+2029, U+202F, U+205F and U+3000.
pub open spec fn is_white_space(c: char) -> bool {
    let u = c as u32;
    ||| 0x9 <= u <= 0xd
    ||| u == 0x20
    ||| u == 0x85
    ||| u == 0xa0
    ||| u == 0x1680
    ||| 0x2000 <= u <= 0x200a
    ||| u == 0x2028
    ||| u == 0x2029
    ||| u == 0x202f
    ||| u == 0x205f
    ||| u == 0x3000
}

/// `s` without its leading white space.
pub open spec fn trimmed_start(s: Seq<char>) -> Seq<char>
    decreases s.len(),
{
    if s.len() > 0 && is_white_space(s[0]) {
        trimmed_start(s.drop_first())
    } else {
        s
    }
}

/// `s` without its trailing white space.
pub open spec fn trimmed_end(s: Seq<char>) -> Seq<char>
    decreases s.len(),
{
    if s.len() > 0 && is_white_space(s.last()) {
        trimmed_end(s.drop_last())
    } else {
        s
    }
}

/// What `str::trim` returns for a string: the string without leading and
/// trailing white space (Unicode `White_Space`).
pub open spec fn trimmed(s: Seq<char>) -> Seq<char> {
    trimmed_end(trimmed_start(s))
}

/// What `str::to_lowercase` returns for a string: its Unicode lower-case
/// mapping.
pub uninterp spec fn lowercased(s: Seq<char>) -> Seq<char>;

/// Whether `c` is white space (see [`is_white_space`]).
pub(crate) fn is_white_space_char(c: char) -> (r: bool)
    ensures
        r == is_white_space(c),
{
    let u = c as u32;
    (0x9 <= u && u <= 0xd) || u == 0x20 || u == 0x85 || u == 0xa0 || u == 0x1680 || (0x2000 <= u && u <= 0x200a)
        || u == 0x2028 || u == 0x2029 || u == 0x202f || u == 0x205f || u == 0x3000
}

/// Trimming the front of a run that starts with white space trims the run
/// without it.
proof fn lemma_trim_start_step(s: Seq<char>, lo: int, n: int)
    requires
        0 <= lo < n == s.len(),
        is_white_space(s[lo]),
    ensures
        trimmed_start(s.subrange(lo, n)) == trimmed_start(s.subrange(lo + 1, n)),
{
    assert(s.subrange(lo, n).drop_first() =~= s.subrange(lo + 1, n));
}

/// Trimming the back of a run that ends with white space trims the run
/// without it.
proof fn lemma_trim_end_step(s: Seq<char>, lo: int, hi: int)
    requires
        0 <= lo < hi <= s.len(),
        is_white_space(s[hi - 1]),
    ensures
        trimmed_end(s.subrange(lo, hi)) == trimmed_end(s.subrange(lo, hi - 1)),
{
    assert(s.subrange(lo, hi).drop_last() =~= s.subrange(lo, hi - 1));
}

/// The string without leading and trailing white space, as `str::trim`
/// gives it (see [`trimmed`]).
pub(crate) fn trim_str(s: &str) -> (r: &str)
    ensures
        r@ == trimmed(s@),
{
    let n = s.unicode_len();
    let ghost v = s@;
    let mut lo: usize = 0;
    proof {
        assert(v.subrange(0, n as int) =~= v);
    }
    while lo < n && is_white_space_char(s.get_char(lo))
        invariant
            n == v.len(),
            v == s@,
            lo <= n,
            trimmed_start(v) == trimmed_start(v.subrange(lo as int, n as int)),
        decreases n - lo,
    {
        proof {
            lemma_trim_start_step(v, lo as int, n as int);
        }
        lo = lo + 1;
    }
    proof {
        if lo < n {
            assert(v.subrange(lo as int, n as int)[0] == v[lo as int]);
        }
    }
    let mut hi: usize = n;
    while hi > lo && is_white_space_char(s.get_char(hi - 1))
        invariant
            n == v.len(),
            v == s@,
            lo <= hi <= n,
            trimmed_start(v) == v.subrange(lo as int, n as int),
            trimmed(v) == trimmed_end(v.subrange(lo as int, hi as int)),
        decreases hi - lo,
    {
        proof {
            lemma_trim_end_step(v, lo as int, hi as int);
        }
        hi = hi - 1;
    }
    proof {
        if hi > lo {
            assert(v.subrange(lo as int, hi as int).last() == v[hi - 1]);
        }
    }
    s.substring_char(lo, hi)
}

/// `str::to_lowercase`: the result is named by [`lowercased`] applied to
/// the input; it is empty exactly when the input is (every character maps
/// to one or more characters).
#[verifier::external_body]
pub(crate) fn lowercase_str(s: &str) -> (r: String)
    ensures
        r@ == lowercased(s@),
        r@.len() == 0 <==> s@.len() == 0,
{
    s.to_lowercase()
}

/// The path of `file` inside directory `dir`.
pub uninterp spec fn joined_path(dir: Seq<char>, file: Seq<char>) -> Seq<char>;

/// `Path::join` (on `Path::new(dir)`, read back as text): the path of
/// `file` inside `dir`. The result is named, not described: it follows the
/// path rules of the target the program is built for (its separator),
/// which are fixed for a build, and nothing more is claimed of it.
#[verifier::external_body]
pub(crate) fn join_path(dir: &str, file: &str) -> (r: String)
    ensures
        r@ == joined_path(dir@, file@),
{
    std::path::Path::new(dir).join(file).to_string_lossy().into_owned()
}

/// `String::push`: appends one character.
#[verifier::external_body]
pub(crate) fn push_char(s: &mut String, c: char)
    ensures
        final(s)@ == old(s)@.push(c),
{
    s.push(c)
}

/// `needle` occurs as a contiguous run inside `hay`.
pub open spec fn is_substring(needle: Seq<char>, hay: Seq<char>) -> bool {
    exists|i: int|
        0 <= i && i + needle.len() <= hay.len() && #[trigger] hay.subrange(i, i + needle.len())
            == needle
}

/// A run of `hay` equal to `needle` makes `needle` a substring, wherever
/// in `hay` the run starts.
pub proof fn law_substring_anywhere(needle: Seq<char>, hay: Seq<char>, at: int)
    requires
        0 <= at,
        at + needle.len() <= hay.len(),
        hay.subrange(at, at + needle.len()) == needle,
    ensures
        is_substring(needle, hay),
{
}

/// The characters of a string, one per element.
pub fn chars_of(s: &str) -> (v: Vec<char>)
    ensures
        v@ == s@,
{
    let n = s.unicode_len();
    let mut v: Vec<char> = Vec::new();
    let mut i: usize = 0;
    while i < n
        invariant
            n == s@.len(),
            i <= n,
            v@ == s@.take(i as int),
        decreases n - i,
    {
        let c = s.get_char(i);
        v.push(c);
        i += 1;
        assert(v@ =~= s@.take(i as int));
    }
    assert(v@ =~= s@);
    v
}

/// Whether `needle` occurs inside `hay`.
pub fn contains_chars(hay: &Vec<char>, needle: &Vec<char>) -> (r: bool)
    ensures
        r == is_substring(needle@, hay@),
        forall|k: int|
            0 <= k && k + needle@.len() <= hay@.len() && #[trigger] hay@.subrange(
                k,
                k + needle@.len(),
            ) == needle@ ==> r,
        r ==> exists|k: int|
            0 <= k && k + needle@.len() <= hay@.len() && #[trigger] hay@.subrange(
                k,
                k + needle@.len(),
            ) == needle@,
{
    let h = hay.len();
    let n = needle.len();
    if n > h {
        proof {
            assert forall|i: int|
                0 <= i && i + n <= h implies #[trigger] hay@.subrange(i, i + n) != needle@ by {}
        }
        return false;
    }
    let mut i: usize = 0;
    while i <= h - n
        invariant
            n <= h,
            h == hay@.len(),
            n == needle@.len(),
            i <= h - n + 1,
            forall|k: int| 0 <= k < i ==> #[trigger] hay@.subrange(k, k + n) != needle@,
        decreases h - n + 1 - i,
    {
        let mut j: usize = 0;
        let mut same = true;
        while j < n
            invariant
                n <= h,
                h == hay@.len(),
                n == needle@.len(),
                i + n <= h,
                j <= n,
                same == (forall|m: int| 0 <= m < j ==> hay@[i + m] == needle@[m]),
            decreases n - j,
        {
            if hay[i + j] != needle[j] {
                same = false;
            }
            j += 1;
        }
        if same {
            assert(hay@.subrange(i as int, i + n) =~= needle@);
            return true;
        } else {
            let ghost m = choose|m: int| 0 <= m < n && hay@[i + m] != needle@[m];
            assert(hay@.subrange(i as int, i + n)[m] != needle@[m]);
        }
        i += 1;
    }
    proof {
        assert forall|k: int| 0 <= k && k + n <= h implies #[trigger] hay@.subrange(k, k + n)
            != needle@ by {
            assert(k < i);
        }
    }
    false
}

/// A fresh string holding `a` followed by `b`.
pub fn concat_str(a: &str, b: &str) -> (r: String)
    ensures
        r@ == a@ + b@,
{
    let mut r = a.to_owned();
    r.append(b);
    r
}


/// The character of a decimal digit.
pub open spec fn digit_char(d: nat) -> char {
    (48 + d) as char
}

/// The decimal representation of `n`, without leading zeros.
pub open spec fn decimal(n: nat) -> Seq<char>
    decreases n,
{
    if n < 10 {
        seq![digit_char(n)]
    } else {
        decimal(n / 10).push(digit_char(n % 10))
    }
}

fn digit(d: u128) -> (c: char)
    requires
        d < 10,
    ensures
        c == digit_char(d as nat),
{
    let code: u8 = 48u8 + (d as u8);
    code as char
}

fn decimal_chars(n: u128) -> (r: Vec<char>)
    ensures
        r@ == decimal(n as nat),
    decreases n,
{
    if n < 10 {
        let mut v: Vec<char> = Vec::new();
        v.push(digit(n));
        proof {
            assert(v@ =~= seq![digit_char(n as nat)]);
        }
        v
    } else {
        let mut v = decimal_chars(n / 10);
        v.push(digit(n % 10));
        v
    }
}

/// The decimal representation of `n`.
pub fn decimal_string(n: u128) -> (r: String)
    ensures
        r@ == decimal(n as nat),
{
    let chars = decimal_chars(n);
    let mut out = String::new();
    let len = chars.len();
    let mut i: usize = 0;
    while i < len
        invariant
            len == chars@.len(),
            i <= len,
            out@ == chars@.take(i as int),
        decreases len - i,
    {
        push_char(&mut out, chars[i]);
        i = i + 1;
        proof {
            assert(out@ =~= chars@.take(i as int));
        }
    }
    proof {
        assert(chars@.take(len as int) =~= chars@);
    }
    out
}
} // verus!
