//! Character-sequence helpers shared by the rest of the crate.

use vstd::prelude::*;

verus! {

/// Whether `needle` occurs in `hay` as a contiguous run starting at `start`.
pub open spec fn occurs_at(hay: Seq<char>, needle: Seq<char>, start: int) -> bool {
    &&& 0 <= start
    &&& start + needle.len() <= hay.len()
    &&& hay.subrange(start, start + needle.len()) == needle
}

/// Whether `needle` is a substring of `hay` (the empty needle is a substring of everything).
pub open spec fn contains_seq(hay: Seq<char>, needle: Seq<char>) -> bool {
    exists|start: int| occurs_at(hay, needle, start)
}

/// Compares two string slices character by character.
pub fn str_eq(a: &str, b: &str) -> (r: bool)
    ensures
        r == (a@ == b@),
{
    let n = a.unicode_len();
    let m = b.unicode_len();
    if n != m {
        return false;
    }
    let mut i: usize = 0;
    while i < n
        invariant
            n == a@.len(),
            m == b@.len(),
            n == m,
            i <= n,
            forall|k: int| 0 <= k < i ==> a@[k] == b@[k],
        decreases n - i,
    {
        if a.get_char(i) != b.get_char(i) {
            return false;
        }
        i = i + 1;
    }
    assert(a@ =~= b@);
    true
}


/// Whether `c` has the Unicode `White_Space` property (what `char::is_whitespace`
/// reports): the controls TAB through CR, NEXT LINE, and the space
/// separators, LINE SEPARATOR and PARAGRAPH SEPARATOR.
pub open spec fn is_white_space(c: char) -> bool {
    let u = c as u32;
    ||| 0x09 <= u <= 0x0D
    ||| u == 0x20
    ||| u == 0x85
    ||| u == 0xA0
    ||| u == 0x1680
    ||| 0x2000 <= u <= 0x200A
    ||| u == 0x2028
    ||| u == 0x2029
    ||| u == 0x202F
    ||| u == 0x205F
    ||| u == 0x3000
}

/// The Unicode lower-case form of a text (what `str::to_lowercase` returns).
pub uninterp spec fn lowercase(s: Seq<char>) -> Seq<char>;

/// `char::is_whitespace`: whether the character has the Unicode `White_Space`
/// property, which `is_white_space` lists.
#[verifier::external_body]
pub(crate) fn char_is_whitespace(c: char) -> (r: bool)
    ensures
        r == is_white_space(c),
{
    c.is_whitespace()
}

/// `str::to_lowercase`: the Unicode lower-case mapping of the whole text. The
/// contract only ties the result to the name `lowercase` of the input.
#[verifier::external_body]
pub(crate) fn str_to_lowercase(s: &str) -> (r: String)
    ensures
        r@ == lowercase(s@),
{
    s.to_lowercase()
}

/// `String::push`: appends one character at the end.
#[verifier::external_body]
pub(crate) fn string_push(s: &mut String, c: char)
    ensures
        final(s)@ == old(s)@.push(c),
{
    s.push(c)
}

/// The characters of a text, in order.
pub fn chars_of(s: &str) -> (r: Vec<char>)
    ensures
        r@ == s@,
{
    let n = s.unicode_len();
    let mut r: Vec<char> = Vec::new();
    let mut i: usize = 0;
    while i < n
        invariant
            n == s@.len(),
            i <= n,
            r@ == s@.take(i as int),
        decreases n - i,
    {
        r.push(s.get_char(i));
        i = i + 1;
        assert(r@ =~= s@.take(i as int));
    }
    assert(s@.take(n as int) =~= s@);
    r
}

/// A string made of the given characters.
pub fn string_from_chars(cs: &Vec<char>) -> (r: String)
    ensures
        r@ == cs@,
{
    let mut r = String::new();
    let mut i: usize = 0;
    while i < cs.len()
        invariant
            i <= cs.len(),
            r@ == cs@.take(i as int),
        decreases cs.len() - i,
    {
        string_push(&mut r, cs[i]);
        i = i + 1;
        assert(r@ =~= cs@.take(i as int));
    }
    assert(cs@.take(i as int) =~= cs@);
    r
}

/// Whether `needle` is a substring of `hay`.
pub fn str_contains(hay: &str, needle: &str) -> (r: bool)
    ensures
        r == contains_seq(hay@, needle@),
{
    let h = chars_of(hay);
    let nd = chars_of(needle);
    if nd.len() > h.len() {
        proof {
            assert forall|start: int| !occurs_at(hay@, needle@, start) by {}
        }
        return false;
    }
    let mut start: usize = 0;
    let last = h.len() - nd.len();
    while start <= last
        invariant
            h@ == hay@,
            nd@ == needle@,
            nd.len() <= h.len(),
            last == h.len() - nd.len(),
            start <= last + 1,
            forall|st: int| 0 <= st < start ==> !occurs_at(hay@, needle@, st),
        decreases h.len() - start,
    {
        let mut k: usize = 0;
        let mut same = true;
        while k < nd.len()
            invariant
                h@ == hay@,
                nd@ == needle@,
                start + nd.len() <= h.len(),
                k <= nd.len(),
                same == (forall|q: int| 0 <= q < k ==> h@[start + q] == nd@[q]),
            decreases nd.len() - k,
        {
            if h[start + k] != nd[k] {
                same = false;
            }
            k = k + 1;
        }
        if same {
            assert(hay@.subrange(start as int, start + needle@.len()) =~= needle@);
            assert(occurs_at(hay@, needle@, start as int));
            return true;
        }
        proof {
            if occurs_at(hay@, needle@, start as int) {
                let q = choose|q: int| 0 <= q < nd.len() && h@[start + q] != nd@[q];
                assert(hay@.subrange(start as int, start + needle@.len())[q] == needle@[q]);
            }
        }
        start = start + 1;
    }
    proof {
        assert forall|st: int| !occurs_at(hay@, needle@, st) by {
            if st >= start {
            }
        }
    }
    false
}

/// The characters removed when trimming: whitespace, or double quotes.
pub open spec fn strip_pred(quotes: bool, c: char) -> bool {
    if quotes {
        c == '"'
    } else {
        is_white_space(c)
    }
}

/// `s[a..b]` is what remains of `s` after removing every leading and trailing
/// character that satisfies the predicate.
pub open spec fn strip_bounds(s: Seq<char>, quotes: bool, a: int, b: int) -> bool {
    &&& 0 <= a <= b <= s.len()
    &&& forall|k: int| 0 <= k < a ==> strip_pred(quotes, #[trigger] s[k])
    &&& forall|k: int| b <= k < s.len() ==> strip_pred(quotes, #[trigger] s[k])
    &&& a < b ==> !strip_pred(quotes, s[a]) && !strip_pred(quotes, s[b - 1])
    &&& a == b ==> a == s.len()
}

/// `s` with every leading and trailing character satisfying the predicate removed.
pub open spec fn stripped(s: Seq<char>, quotes: bool) -> Seq<char> {
    let (a, b) = choose|a: int, b: int| strip_bounds(s, quotes, a, b);
    s.subrange(a, b)
}

/// `s` with leading and trailing whitespace removed (as `str::trim` does).
pub open spec fn trim_seq(s: Seq<char>) -> Seq<char> {
    stripped(s, false)
}

/// `s` with leading and trailing double quotes removed (as `str::trim_matches('"')` does).
pub open spec fn unquote_seq(s: Seq<char>) -> Seq<char> {
    stripped(s, true)
}

proof fn lemma_strip_unique(s: Seq<char>, quotes: bool, a: int, b: int)
    requires
        strip_bounds(s, quotes, a, b),
    ensures
        stripped(s, quotes) == s.subrange(a, b),
{
    let (a2, b2) = choose|a2: int, b2: int| strip_bounds(s, quotes, a2, b2);
    assert(strip_bounds(s, quotes, a2, b2));
    if a < b {
        if a2 == b2 {
            assert(strip_pred(quotes, s[a]));
        }
        if a2 < a {
            assert(strip_pred(quotes, s[a2]));
        }
        if a < a2 {
            assert(strip_pred(quotes, s[a]));
        }
        if b2 < b {
            assert(strip_pred(quotes, s[b - 1]));
        }
        if b < b2 {
            assert(strip_pred(quotes, s[b2 - 1]));
        }
    } else {
        if a2 < b2 {
            assert(strip_pred(quotes, s[a2]));
        }
    }
}

fn strip_test(c: char, quotes: bool) -> (r: bool)
    ensures
        r == strip_pred(quotes, c),
{
    if quotes {
        c == '"'
    } else {
        char_is_whitespace(c)
    }
}

fn strip(s: &str, quotes: bool) -> (r: String)
    ensures
        r@ == stripped(s@, quotes),
{
    let cs = chars_of(s);
    let n = cs.len();
    let mut a: usize = 0;
    while a < n && strip_test(cs[a], quotes)
        invariant
            cs@ == s@,
            n == cs@.len(),
            a <= n,
            forall|k: int| 0 <= k < a ==> strip_pred(quotes, #[trigger] s@[k]),
        decreases n - a,
    {
        a = a + 1;
    }
    let mut b: usize = n;
    while b > a && strip_test(cs[b - 1], quotes)
        invariant
            cs@ == s@,
            n == cs@.len(),
            a <= b <= n,
            forall|k: int| b <= k < n ==> strip_pred(quotes, #[trigger] s@[k]),
        decreases b - a,
    {
        b = b - 1;
    }
    proof {
        if a == b && a < n {
            assert(!strip_pred(quotes, s@[a as int]));
            assert(false);
        }
        assert(strip_bounds(s@, quotes, a as int, b as int));
        lemma_strip_unique(s@, quotes, a as int, b as int);
    }
    let mut out: Vec<char> = Vec::new();
    let mut i: usize = a;
    while i < b
        invariant
            cs@ == s@,
            a <= i <= b <= n,
            n == cs@.len(),
            out@ == s@.subrange(a as int, i as int),
        decreases b - i,
    {
        out.push(cs[i]);
        i = i + 1;
        assert(out@ =~= s@.subrange(a as int, i as int));
    }
    string_from_chars(&out)
}

/// `str::trim`, written out: removes leading and trailing whitespace.
pub fn trim(s: &str) -> (r: String)
    ensures
        r@ == trim_seq(s@),
{
    strip(s, false)
}

/// `str::trim_matches('"')`, written out: removes leading and trailing double quotes.
pub fn unquote(s: &str) -> (r: String)
    ensures
        r@ == unquote_seq(s@),
{
    strip(s, true)
}


/// A text followed by another.
pub fn append_str(a: &str, b: &str) -> (r: String)
    ensures
        r@ == a@ + b@,
{
    let mut r = a.to_owned();
    let cs = chars_of(b);
    let mut i: usize = 0;
    while i < cs.len()
        invariant
            cs@ == b@,
            i <= cs.len(),
            r@ == a@ + b@.take(i as int),
        decreases cs.len() - i,
    {
        string_push(&mut r, cs[i]);
        i = i + 1;
        assert(r@ =~= a@ + b@.take(i as int));
    }
    assert(b@.take(i as int) =~= b@);
    r
}

/// The character of a decimal digit.
pub open spec fn digit_char(d: nat) -> char {
    if d == 0 {
        '0'
    } else if d == 1 {
        '1'
    } else if d == 2 {
        '2'
    } else if d == 3 {
        '3'
    } else if d == 4 {
        '4'
    } else if d == 5 {
        '5'
    } else if d == 6 {
        '6'
    } else if d == 7 {
        '7'
    } else if d == 8 {
        '8'
    } else {
        '9'
    }
}

/// The decimal notation of a number, without leading zeros.
pub open spec fn decimal(n: nat) -> Seq<char>
    decreases n,
{
    if n < 10 {
        seq![digit_char(n)]
    } else {
        decimal(n / 10).push(digit_char(n % 10))
    }
}

fn digit(d: usize) -> (c: char)
    requires
        d < 10,
    ensures
        c == digit_char(d as nat),
{
    if d == 0 {
        '0'
    } else if d == 1 {
        '1'
    } else if d == 2 {
        '2'
    } else if d == 3 {
        '3'
    } else if d == 4 {
        '4'
    } else if d == 5 {
        '5'
    } else if d == 6 {
        '6'
    } else if d == 7 {
        '7'
    } else if d == 8 {
        '8'
    } else {
        '9'
    }
}

/// Appends the decimal notation of `n`.
pub fn push_decimal(out: &mut String, n: usize)
    ensures
        final(out)@ == old(out)@ + decimal(n as nat),
    decreases n,
{
    if n >= 10 {
        push_decimal(out, n / 10);
    }
    string_push(out, digit(n % 10));
    proof {
        if n >= 10 {
            assert(out@ =~= old(out)@ + decimal(n as nat)) by {
                assert(decimal(n as nat) == decimal((n / 10) as nat).push(digit_char((n % 10) as nat)));
            }
        } else {
            assert(out@ =~= old(out)@ + decimal(n as nat));
        }
    }
}

} // verus!
