//! Character-level string operations with their specifications.
//!
//! Strings are modelled by their views, `Seq<char>`.  Each executable
//! function here states its result exactly over a spec function.
use vstd::prelude::*;
use vstd::string::StringExecFns;

verus! {

broadcast use vstd::string::group_string_axioms;

/// Appends one character (`String::push`).
#[verifier::external_body]
pub(crate) fn push_char(s: &mut String, c: char)
    ensures
        final(s)@ == old(s)@.push(c),
{
    s.push(c);
}

/// The characters of a string slice, in order.
pub fn chars_of(s: &str) -> (v: Vec<char>)
    ensures
        v@ == s@,
{
    let mut v: Vec<char> = Vec::new();
    for c in it: s.chars()
        invariant
            v@ == it.seq().take(it.index() as int),
            it.seq() == s@,
    {
        v.push(c);
    }
    v
}

/// The string made of `v[lo..hi]`.
pub fn string_of_range(v: &Vec<char>, lo: usize, hi: usize) -> (s: String)
    requires
        lo <= hi <= v.len(),
    ensures
        s@ == v@.subrange(lo as int, hi as int),
{
    let mut s = String::new();
    let mut i = lo;
    while i < hi
        invariant
            lo <= i <= hi <= v.len(),
            s@ == v@.subrange(lo as int, i as int),
        decreases hi - i,
    {
        push_char(&mut s, v[i]);
        i += 1;
        assert(s@ =~= v@.subrange(lo as int, i as int));
    }
    s
}

/// The string made of all of `v`.
pub fn string_of(v: &Vec<char>) -> (s: String)
    ensures
        s@ == v@,
{
    let s = string_of_range(v, 0, v.len());
    assert(v@.subrange(0, v@.len() as int) =~= v@);
    s
}

// ---------------------------------------------------------------------
// Decimal numerals

/// The ASCII digit for `d` (0 to 9).
pub open spec fn digit_char(d: int) -> char {
    if d == 0 { '0' }
    else if d == 1 { '1' }
    else if d == 2 { '2' }
    else if d == 3 { '3' }
    else if d == 4 { '4' }
    else if d == 5 { '5' }
    else if d == 6 { '6' }
    else if d == 7 { '7' }
    else if d == 8 { '8' }
    else { '9' }
}

/// The value of an ASCII digit, if `c` is one.
pub open spec fn digit_value(c: char) -> Option<int> {
    if c == '0' { Some(0) }
    else if c == '1' { Some(1) }
    else if c == '2' { Some(2) }
    else if c == '3' { Some(3) }
    else if c == '4' { Some(4) }
    else if c == '5' { Some(5) }
    else if c == '6' { Some(6) }
    else if c == '7' { Some(7) }
    else if c == '8' { Some(8) }
    else if c == '9' { Some(9) }
    else { None }
}

/// The decimal numeral of `n`, without leading zeros (as `Display` writes it).
pub open spec fn decimal(n: nat) -> Seq<char>
    decreases n,
{
    if n < 10 {
        seq![digit_char(n as int)]
    } else {
        decimal(n / 10).push(digit_char((n % 10) as int))
    }
}

/// The decimal numeral of a signed integer, with a leading `-` when negative.
pub open spec fn signed_decimal(i: int) -> Seq<char> {
    if i < 0 {
        seq!['-'] + decimal((-i) as nat)
    } else {
        decimal(i as nat)
    }
}

fn digit_of(d: u64) -> (c: char)
    requires
        d < 10,
    ensures
        c == digit_char(d as int),
{
    if d == 0 { '0' }
    else if d == 1 { '1' }
    else if d == 2 { '2' }
    else if d == 3 { '3' }
    else if d == 4 { '4' }
    else if d == 5 { '5' }
    else if d == 6 { '6' }
    else if d == 7 { '7' }
    else if d == 8 { '8' }
    else { '9' }
}

/// Appends the decimal numeral of `n`.
pub fn push_decimal(s: &mut String, n: u64)
    ensures
        final(s)@ == old(s)@ + decimal(n as nat),
    decreases n,
{
    if n >= 10 {
        push_decimal(s, n / 10);
    }
    push_char(s, digit_of(n % 10));
    assert(final(s)@ =~= old(s)@ + decimal(n as nat)) by {
        if n >= 10 {
            assert(decimal(n as nat) == decimal((n / 10) as nat).push(digit_char((n % 10) as int)));
        }
    }
}

/// The decimal numeral of `n` as a new string (`n.to_string()`).
pub fn u64_to_decimal(n: u64) -> (s: String)
    ensures
        s@ == decimal(n as nat),
{
    let mut s = String::new();
    push_decimal(&mut s, n);
    assert(s@ =~= decimal(n as nat));
    s
}

/// Appends the decimal numeral of a signed 32-bit integer.
pub fn push_signed_decimal(s: &mut String, i: i32)
    ensures
        final(s)@ == old(s)@ + signed_decimal(i as int),
{
    if i < 0 {
        push_char(s, '-');
        let magnitude: u64 = (0i64 - (i as i64)) as u64;
        push_decimal(s, magnitude);
        assert(final(s)@ =~= old(s)@ + signed_decimal(i as int));
    } else {
        push_decimal(s, i as u64);
    }
}

// ---------------------------------------------------------------------
// Prefixes

/// The first `n` characters of `s`, or all of `s` when it is shorter
/// (as `s.chars().take(n).collect()`).
pub open spec fn first_chars(s: Seq<char>, n: nat) -> Seq<char> {
    if s.len() <= n { s } else { s.take(n as int) }
}

/// The first `n` characters of `s` (`s.chars().take(n).collect()`).
pub fn take_chars(s: &str, n: usize) -> (r: String)
    ensures
        r@ == first_chars(s@, n as nat),
{
    let v = chars_of(s);
    if v.len() <= n {
        string_of(&v)
    } else {
        string_of_range(&v, 0, n)
    }
}


// ---------------------------------------------------------------------
// Matching, replacing and splitting

/// `p` occurs in `s` at position `i`.
pub open spec fn occurs_at(s: Seq<char>, p: Seq<char>, i: int) -> bool {
    0 <= i && i + p.len() <= s.len() && s.subrange(i, i + p.len()) == p
}

/// Whether `p` occurs at position `i` of `v`.
pub fn matches_at(v: &Vec<char>, i: usize, p: &Vec<char>) -> (b: bool)
    ensures
        b == occurs_at(v@, p@, i as int),
{
    if i > v.len() || p.len() > v.len() - i {
        return false;
    }
    let mut k: usize = 0;
    while k < p.len()
        invariant
            i + p.len() <= v.len(),
            k <= p.len(),
            forall|j: int| 0 <= j < k ==> v@[i + j] == p@[j],
        decreases p.len() - k,
    {
        if v[i + k] != p[k] {
            assert(v@.subrange(i as int, i + p.len())[k as int] != p@[k as int]);
            return false;
        }
        k += 1;
    }
    assert(v@.subrange(i as int, i + p.len()) =~= p@);
    true
}

/// `s` with every occurrence of `p` replaced by `to`, occurrences taken
/// left to right without overlap (as `str::replace` does).
pub open spec fn replaced(s: Seq<char>, p: Seq<char>, to: Seq<char>) -> Seq<char>
    decreases s.len(),
{
    if s.len() == 0 || p.len() == 0 {
        s
    } else if occurs_at(s, p, 0) {
        to + replaced(s.skip(p.len() as int), p, to)
    } else {
        seq![s[0]] + replaced(s.skip(1), p, to)
    }
}

/// `s.replace(pat, to)` for a non-empty pattern.
pub fn replace_all(s: &str, pat: &str, to: &str) -> (r: String)
    requires
        pat@.len() > 0,
    ensures
        r@ == replaced(s@, pat@, to@),
{
    let v = chars_of(s);
    let p = chars_of(pat);
    let mut out = String::new();
    let mut i: usize = 0;
    assert(v@.skip(0) =~= v@);
    while i < v.len()
        invariant
            i <= v.len(),
            p@.len() > 0,
            replaced(v@, p@, to@) == out@ + replaced(v@.skip(i as int), p@, to@),
        decreases v.len() - i,
    {
        let ghost rest = v@.skip(i as int);
        if matches_at(&v, i, &p) {
            assert(occurs_at(rest, p@, 0)) by {
                assert(rest.subrange(0, p@.len() as int) =~= v@.subrange(i as int, i + p@.len()));
            }
            assert(rest.skip(p@.len() as int) =~= v@.skip(i + p@.len()));
            out.append(to);
            i += p.len();
        } else {
            assert(!occurs_at(rest, p@, 0)) by {
                if occurs_at(rest, p@, 0) {
                    assert(rest.subrange(0, p@.len() as int) =~= v@.subrange(i as int, i + p@.len()));
                }
            }
            assert(rest.skip(1) =~= v@.skip(i + 1));
            push_char(&mut out, v[i]);
            i += 1;
        }
        assert(out@ + replaced(v@.skip(i as int), p@, to@) =~= replaced(v@, p@, to@));
    }
    assert(replaced(v@.skip(i as int), p@, to@) =~= Seq::<char>::empty());
    out
}

/// The pieces of `s` between occurrences of `p`, occurrences taken left to
/// right without overlap (as `str::split` with a string pattern).
pub open spec fn split_on(s: Seq<char>, p: Seq<char>) -> Seq<Seq<char>>
    decreases s.len(),
{
    if s.len() == 0 || p.len() == 0 {
        seq![s]
    } else if occurs_at(s, p, 0) {
        seq![Seq::<char>::empty()] + split_on(s.skip(p.len() as int), p)
    } else {
        let rest = split_on(s.skip(1), p);
        rest.update(0, seq![s[0]] + rest[0])
    }
}

/// There is always at least one piece.
pub proof fn lemma_split_on_nonempty(s: Seq<char>, p: Seq<char>)
    ensures
        split_on(s, p).len() >= 1,
    decreases s.len(),
{
    if s.len() == 0 || p.len() == 0 {
    } else if occurs_at(s, p, 0) {
        lemma_split_on_nonempty(s.skip(p.len() as int), p);
    } else {
        lemma_split_on_nonempty(s.skip(1), p);
    }
}

/// The pieces of `s` split at every occurrence of `pat` (`s.split(pat)`).
pub fn split_all(s: &str, pat: &str) -> (parts: Vec<Vec<char>>)
    requires
        pat@.len() > 0,
    ensures
        parts@.len() == split_on(s@, pat@).len(),
        forall|k: int| 0 <= k < parts@.len() ==> #[trigger] parts@[k]@ == split_on(s@, pat@)[k],
{
    let v = chars_of(s);
    let p = chars_of(pat);
    let mut done: Vec<Vec<char>> = Vec::new();
    let mut cur: Vec<char> = Vec::new();
    let mut i: usize = 0;
    assert(v@.skip(0) =~= v@);
    proof {
        lemma_split_on_nonempty(v@, p@);
    }
    while i < v.len()
        invariant
            i <= v.len(),
            p@.len() > 0,
            ({
                let r = split_on(v@.skip(i as int), p@);
                let whole = split_on(v@, p@);
                &&& r.len() >= 1
                &&& whole.len() == done@.len() + r.len()
                &&& forall|k: int| 0 <= k < done@.len() ==> #[trigger] done@[k]@ == whole[k]
                &&& whole[done@.len() as int] == cur@ + r[0]
                &&& forall|k: int| 1 <= k < r.len() ==> #[trigger] r[k] == whole[done@.len() + k]
            }),
        decreases v.len() - i,
    {
        let ghost rest = v@.skip(i as int);
        let ghost r = split_on(rest, p@);
        if matches_at(&v, i, &p) {
            assert(occurs_at(rest, p@, 0)) by {
                assert(rest.subrange(0, p@.len() as int) =~= v@.subrange(i as int, i + p@.len()));
            }
            assert(rest.skip(p@.len() as int) =~= v@.skip(i + p@.len()));
            proof {
                lemma_split_on_nonempty(rest.skip(p@.len() as int), p@);
            }
            let piece = cur;
            done.push(piece);
            cur = Vec::new();
            i += p.len();
            let ghost r2 = split_on(v@.skip(i as int), p@);
            assert(r == seq![Seq::<char>::empty()] + r2);
            assert(cur@ + r2[0] =~= r2[0]);
            assert forall|k: int| 0 <= k < done@.len() implies #[trigger] done@[k]@ == split_on(v@, p@)[k] by {
                if k == done@.len() - 1 {
                    assert(piece@ + r[0] =~= piece@);
                }
            }
            assert forall|k: int| 1 <= k < r2.len() implies #[trigger] r2[k] == split_on(v@, p@)[done@.len() + k] by {
                assert(r2[k] == r[k + 1]);
            }
            assert(r2[0] == r[1]);
            assert(split_on(v@, p@)[done@.len() as int] == cur@ + r2[0]);
        } else {
            assert(!occurs_at(rest, p@, 0)) by {
                if occurs_at(rest, p@, 0) {
                    assert(rest.subrange(0, p@.len() as int) =~= v@.subrange(i as int, i + p@.len()));
                }
            }
            assert(rest.skip(1) =~= v@.skip(i + 1));
            proof {
                lemma_split_on_nonempty(rest.skip(1), p@);
            }
            let ghost old_cur = cur@;
            cur.push(v[i]);
            i += 1;
            let ghost r2 = split_on(v@.skip(i as int), p@);
            assert(r == r2.update(0, seq![v@[i - 1]] + r2[0]));
            assert(cur@ + r2[0] =~= old_cur + (seq![v@[i - 1]] + r2[0]));
            assert forall|k: int| 1 <= k < r2.len() implies #[trigger] r2[k] == split_on(v@, p@)[done@.len() + k] by {
                assert(r2[k] == r[k]);
            }
            assert(split_on(v@, p@)[done@.len() as int] == cur@ + r2[0]);
        }
    }
    let ghost r = split_on(v@.skip(i as int), p@);
    assert(v@.skip(i as int) =~= Seq::<char>::empty());
    assert(r == seq![Seq::<char>::empty()]);
    let ghost last = cur@;
    done.push(cur);
    assert(last + r[0] =~= last);
    done
}


// ---------------------------------------------------------------------
// Whitespace and letter case (Unicode tables of `std`)

/// Whether `c` has the Unicode `White_Space` property, the test of
/// `char::is_whitespace`: U+0009 to U+000D, U+0020, U+0085, U+00A0, U+1680,
/// U+2000 to U+200A, U+2028, U+2029, U+202F, U+205F and U+3000.
pub open spec fn is_white(c: char) -> bool {
    let u = c as u32;
    ||| 0x09 <= u <= 0x0d
    ||| u == 0x20
    ||| u == 0x85
    ||| u == 0xa0
    ||| u == 0x1680
    ||| 0x2000 <= u <= 0x200a
    ||| u == 0x2028
    ||| u == 0x2029
    ||| u == 0x202f
    ||| u == 0x205f
    ||| u == 0x3000
}

/// Whether `c` is whitespace (`char::is_whitespace`).
pub fn char_is_whitespace(c: char) -> (b: bool)
    ensures
        b == is_white(c),
{
    let u = c as u32;
    (0x09 <= u && u <= 0x0d) || u == 0x20 || u == 0x85 || u == 0xa0 || u == 0x1680
        || (0x2000 <= u && u <= 0x200a) || u == 0x2028 || u == 0x2029 || u == 0x202f
        || u == 0x205f || u == 0x3000
}

/// An ASCII character (below U+0080).
pub open spec fn is_ascii_char(c: char) -> bool {
    (c as u32) < 0x80
}

/// Every character of `s` is ASCII.
pub open spec fn ascii_only(s: Seq<char>) -> bool {
    forall|i: int| 0 <= i < s.len() ==> is_ascii_char(#[trigger] s[i])
}

/// `c` with `a`..`z` mapped to `A`..`Z` (`char::to_ascii_uppercase`).
pub open spec fn ascii_upper(c: char) -> char {
    let u = c as u32;
    if 0x61 <= u && u <= 0x7a { ((u - 0x20) as u32) as char } else { c }
}

/// `c` with `A`..`Z` mapped to `a`..`z` (`char::to_ascii_lowercase`).
pub open spec fn ascii_lower(c: char) -> char {
    let u = c as u32;
    if 0x41 <= u && u <= 0x5a { ((u + 0x20) as u32) as char } else { c }
}

/// The characters that `char::to_uppercase` yields for a character beyond
/// ASCII.
pub uninterp spec fn unicode_upper(c: char) -> Seq<char>;

/// The characters that `char::to_uppercase` yields for `c`: the ASCII upper
/// case of an ASCII character, and what the Unicode tables give for others.
pub open spec fn upper_of(c: char) -> Seq<char> {
    if is_ascii_char(c) { seq![ascii_upper(c)] } else { unicode_upper(c) }
}

/// `char::to_uppercase`, collected into a string.  On an ASCII character it
/// gives that character's ASCII upper case; beyond ASCII its result is named
/// `unicode_upper`, as the Unicode case tables are not written out here.
#[verifier::external_body]
pub(crate) fn char_to_uppercase(c: char) -> (r: String)
    ensures
        r@ == if is_ascii_char(c) { seq![ascii_upper(c)] } else { unicode_upper(c) },
{
    c.to_uppercase().collect()
}

/// What `str::to_lowercase` returns for a string that is not all ASCII.
pub uninterp spec fn unicode_lower(s: Seq<char>) -> Seq<char>;

/// What `str::to_lowercase` returns for `s`: for an all-ASCII string, its
/// ASCII lower case; otherwise what the Unicode tables give.
pub open spec fn lower_of(s: Seq<char>) -> Seq<char> {
    if ascii_only(s) { s.map_values(|c: char| ascii_lower(c)) } else { unicode_lower(s) }
}

/// `str::to_lowercase`.  On an all-ASCII string it gives the ASCII lower
/// case of each character; for other strings its result is named
/// `unicode_lower`, as the Unicode case tables (and the context rule for a
/// final sigma) are not written out here.
#[verifier::external_body]
pub(crate) fn str_to_lowercase(s: &str) -> (r: String)
    ensures
        r@ == if ascii_only(s@) {
            s@.map_values(|c: char| ascii_lower(c))
        } else {
            unicode_lower(s@)
        },
{
    s.to_lowercase()
}

/// `s` without its leading whitespace.
pub open spec fn trim_start(s: Seq<char>) -> Seq<char>
    decreases s.len(),
{
    if s.len() > 0 && is_white(s[0]) { trim_start(s.skip(1)) } else { s }
}

/// `s` without its trailing whitespace.
pub open spec fn trim_end(s: Seq<char>) -> Seq<char>
    decreases s.len(),
{
    if s.len() > 0 && is_white(s.last()) { trim_end(s.drop_last()) } else { s }
}

/// `s` without leading and trailing whitespace (`str::trim`).
pub open spec fn trimmed(s: Seq<char>) -> Seq<char> {
    trim_end(trim_start(s))
}

/// The bounds `lo..hi` of `v[from..to]` with whitespace trimmed from both ends.
pub fn trim_bounds(v: &Vec<char>, from: usize, to: usize) -> (r: (usize, usize))
    requires
        from <= to <= v.len(),
    ensures
        from <= r.0 <= r.1 <= to,
        v@.subrange(r.0 as int, r.1 as int) == trimmed(v@.subrange(from as int, to as int)),
{
    let mut lo = from;
    while lo < to && char_is_whitespace(v[lo])
        invariant
            from <= lo <= to <= v.len(),
            trim_start(v@.subrange(from as int, to as int)) == trim_start(v@.subrange(lo as int, to as int)),
        decreases to - lo,
    {
        assert(v@.subrange(lo as int, to as int).skip(1) =~= v@.subrange(lo + 1, to as int));
        lo += 1;
    }
    let ghost start = v@.subrange(lo as int, to as int);
    assert(trim_start(start) == start);
    let mut hi = to;
    while hi > lo && char_is_whitespace(v[hi - 1])
        invariant
            from <= lo <= hi <= to <= v.len(),
            start == v@.subrange(lo as int, to as int),
            trim_end(start) == trim_end(v@.subrange(lo as int, hi as int)),
        decreases hi - lo,
    {
        assert(v@.subrange(lo as int, hi as int).drop_last() =~= v@.subrange(lo as int, hi - 1));
        hi -= 1;
    }
    (lo, hi)
}

/// `s.trim()` as a new string.
pub fn trim_str(s: &str) -> (r: String)
    ensures
        r@ == trimmed(s@),
{
    let v = chars_of(s);
    let (lo, hi) = trim_bounds(&v, 0, v.len());
    assert(v@.subrange(0, v@.len() as int) =~= v@);
    string_of_range(&v, lo, hi)
}

/// The piece `cur` as a list of at most one word.
pub open spec fn word_if_any(cur: Seq<char>) -> Seq<Seq<char>> {
    if cur.len() > 0 { seq![cur] } else { Seq::empty() }
}

/// The whitespace-separated words of `s`, given the partial word `cur`
/// that precedes it.
pub open spec fn words_after(s: Seq<char>, cur: Seq<char>) -> Seq<Seq<char>>
    decreases s.len(),
{
    if s.len() == 0 {
        word_if_any(cur)
    } else if is_white(s[0]) {
        word_if_any(cur) + words_after(s.skip(1), Seq::empty())
    } else {
        words_after(s.skip(1), cur.push(s[0]))
    }
}

/// The non-empty runs of non-whitespace characters of `s`, in order
/// (`str::split_whitespace`).
pub open spec fn words(s: Seq<char>) -> Seq<Seq<char>> {
    words_after(s, Seq::empty())
}

/// `s.split_whitespace()`, each word as its characters.
pub fn split_words(s: &str) -> (ws: Vec<Vec<char>>)
    ensures
        ws@.len() == words(s@).len(),
        forall|k: int| 0 <= k < ws@.len() ==> #[trigger] ws@[k]@ == words(s@)[k],
{
    let v = chars_of(s);
    let mut done: Vec<Vec<char>> = Vec::new();
    let mut cur: Vec<char> = Vec::new();
    let mut i: usize = 0;
    assert(v@.skip(0) =~= v@);
    while i < v.len()
        invariant
            i <= v.len(),
            ({
                let r = words_after(v@.skip(i as int), cur@);
                let whole = words(v@);
                &&& whole.len() == done@.len() + r.len()
                &&& forall|k: int| 0 <= k < done@.len() ==> #[trigger] done@[k]@ == whole[k]
                &&& forall|k: int| 0 <= k < r.len() ==> #[trigger] r[k] == whole[done@.len() + k]
            }),
        decreases v.len() - i,
    {
        let ghost rest = v@.skip(i as int);
        let ghost r = words_after(rest, cur@);
        assert(rest.skip(1) =~= v@.skip(i + 1));
        if char_is_whitespace(v[i]) {
            let ghost r2 = words_after(v@.skip(i + 1), Seq::empty());
            assert(r == word_if_any(cur@) + r2);
            if cur.len() > 0 {
                let piece = cur;
                done.push(piece);
                cur = Vec::new();
                assert forall|k: int| 0 <= k < r2.len() implies #[trigger] r2[k] == words(v@)[done@.len() + k] by {
                    assert(r2[k] == r[k + 1]);
                }
                assert(done@[done@.len() - 1]@ == words(v@)[done@.len() - 1]) by {
                    assert(r[0] == piece@);
                }
            } else {
                assert(r =~= r2);
                cur = Vec::new();
                assert(cur@ =~= Seq::<char>::empty());
            }
        } else {
            cur.push(v[i]);
        }
        i += 1;
    }
    let ghost r = words_after(v@.skip(i as int), cur@);
    assert(v@.skip(i as int) =~= Seq::<char>::empty());
    if cur.len() > 0 {
        assert(r == seq![cur@]);
        assert(r[0] == words(v@)[done@.len() as int]);
        let piece = cur;
        done.push(piece);
        assert(done@[done@.len() - 1]@ == words(v@)[done@.len() - 1]);
    } else {
        assert(r =~= Seq::<Seq<char>>::empty());
    }
    done
}

/// The pieces joined with `sep` between neighbours (`[..].join(sep)`).
pub open spec fn joined(parts: Seq<Seq<char>>, sep: Seq<char>) -> Seq<char>
    decreases parts.len(),
{
    if parts.len() == 0 {
        Seq::empty()
    } else if parts.len() == 1 {
        parts[0]
    } else {
        joined(parts.drop_last(), sep) + sep + parts.last()
    }
}


// ---------------------------------------------------------------------
// Searching, lines and prefixes

/// `p` occurs somewhere in `s` (`str::contains`; the empty pattern occurs
/// everywhere).
pub open spec fn contains_seq(s: Seq<char>, p: Seq<char>) -> bool {
    exists|i: int| occurs_at(s, p, i)
}

/// Whether `p` occurs in `v`.
pub fn contains_chars(v: &Vec<char>, p: &Vec<char>) -> (b: bool)
    ensures
        b == contains_seq(v@, p@),
{
    if p.len() > v.len() {
        assert(!contains_seq(v@, p@));
        return false;
    }
    let last = v.len() - p.len();
    let mut i: usize = 0;
    loop
        invariant
            p.len() <= v.len(),
            last == v.len() - p.len(),
            i <= last,
            forall|j: int| 0 <= j < i ==> !occurs_at(v@, p@, j),
        ensures
            forall|j: int| 0 <= j <= last ==> !occurs_at(v@, p@, j),
        decreases last - i,
    {
        if matches_at(v, i, p) {
            return true;
        }
        if i == last {
            break;
        }
        i += 1;
    }
    assert forall|j: int| !occurs_at(v@, p@, j) by {
        if 0 <= j <= last {
        }
    }
    false
}

/// The position of the first `'\n'` in `s`, or its length when there is none.
pub open spec fn newline_index(s: Seq<char>) -> nat
    decreases s.len(),
{
    if s.len() == 0 {
        0
    } else if s[0] == '\n' {
        0
    } else {
        1 + newline_index(s.skip(1))
    }
}

/// The first line of `s`, as `s.lines().next()` gives it: the text before
/// the first `'\n'`, without a `'\r'` just before that `'\n'`; `None` for
/// the empty string, which has no lines.
pub open spec fn first_line(s: Seq<char>) -> Option<Seq<char>> {
    let k = newline_index(s);
    if s.len() == 0 {
        None
    } else if k < s.len() && k > 0 && s[k - 1] == '\r' {
        Some(s.take(k - 1))
    } else {
        Some(s.take(k as int))
    }
}

/// The end of the first line of `v` (the index of its first `'\n'`, or its
/// length).
pub fn newline_position(v: &Vec<char>) -> (k: usize)
    ensures
        k == newline_index(v@),
        k <= v.len(),
        k < v.len() ==> v@[k as int] == '\n',
{
    let mut i: usize = 0;
    assert(v@.skip(0) =~= v@);
    while i < v.len() && v[i] != '\n'
        invariant
            i <= v.len(),
            newline_index(v@) == i + newline_index(v@.skip(i as int)),
        decreases v.len() - i,
    {
        assert(v@.skip(i as int).skip(1) =~= v@.skip(i + 1));
        i += 1;
    }
    i
}

/// The bounds `0..end` of the first line of `v`, or `None` when `v` is empty.
pub fn first_line_end(v: &Vec<char>) -> (r: Option<usize>)
    ensures
        match first_line(v@) {
            Some(l) => r matches Some(e) && e <= v.len() && l == v@.take(e as int),
            None => r is None,
        },
{
    if v.len() == 0 {
        return None;
    }
    let k = newline_position(v);
    if k < v.len() && k > 0 && v[k - 1] == '\r' {
        Some(k - 1)
    } else {
        Some(k)
    }
}

/// `s` without the prefix `p`, if `s` starts with it (`str::strip_prefix`).
pub open spec fn without_prefix(s: Seq<char>, p: Seq<char>) -> Option<Seq<char>> {
    if occurs_at(s, p, 0) { Some(s.skip(p.len() as int)) } else { None }
}

// ---------------------------------------------------------------------
// Byte offsets in UTF-8

/// The number of bytes of `c` in UTF-8 (`char::len_utf8`).
pub open spec fn utf8_width(c: char) -> nat {
    let u = c as u32;
    if u < 0x80 { 1 } else if u < 0x800 { 2 } else if u < 0x10000 { 3 } else { 4 }
}

/// The number of bytes of `s` in UTF-8 (`str::len`).
pub open spec fn utf8_len(s: Seq<char>) -> nat
    decreases s.len(),
{
    if s.len() == 0 { 0 } else { utf8_width(s[0]) + utf8_len(s.skip(1)) }
}

/// The number of characters of `s` that fill exactly its first `b` bytes,
/// if byte offset `b` falls on a character boundary within `s`.
pub open spec fn chars_in_bytes(s: Seq<char>, b: int) -> Option<nat>
    decreases s.len(),
{
    if b == 0 {
        Some(0)
    } else if b < 0 || s.len() == 0 || utf8_width(s[0]) > b {
        None
    } else {
        match chars_in_bytes(s.skip(1), b - utf8_width(s[0])) {
            Some(k) => Some(k + 1),
            None => None,
        }
    }
}

/// The characters between byte offsets `from` and `to` of `s`, as
/// `&s[from..to]` gives them; `None` where that slice panics (an offset
/// off a character boundary or past the end, or `from > to`).
pub open spec fn byte_slice(s: Seq<char>, from: int, to: int) -> Option<Seq<char>> {
    match (chars_in_bytes(s, from), chars_in_bytes(s, to)) {
        (Some(a), Some(b)) => if a <= b { Some(s.subrange(a as int, b as int)) } else { None },
        _ => None,
    }
}

fn char_width(c: char) -> (w: u64)
    ensures
        w == utf8_width(c),
{
    let u = c as u32;
    if u < 0x80 { 1 } else if u < 0x800 { 2 } else if u < 0x10000 { 3 } else { 4 }
}

/// The byte length of `v` in UTF-8.
pub fn utf8_length(v: &Vec<char>) -> (n: u128)
    ensures
        n == utf8_len(v@),
{
    let mut n: u128 = 0;
    let mut i: usize = 0;
    assert(v@.skip(0) =~= v@);
    while i < v.len()
        invariant
            i <= v.len(),
            n <= 4 * i,
            utf8_len(v@) == n + utf8_len(v@.skip(i as int)),
        decreases v.len() - i,
    {
        assert(v@.skip(i as int).skip(1) =~= v@.skip(i + 1));
        n = n + char_width(v[i]) as u128;
        i += 1;
    }
    assert(v@.skip(i as int) =~= Seq::<char>::empty());
    n
}

/// The character index at byte offset `b` of `v`, if it is a boundary.
pub fn char_index_at_byte(v: &Vec<char>, b: u128) -> (r: Option<usize>)
    ensures
        r matches Some(k) ==> chars_in_bytes(v@, b as int) == Some(k as nat),
        r is None ==> chars_in_bytes(v@, b as int) is None,
{
    let mut acc: u128 = 0;
    let mut i: usize = 0;
    assert(v@.skip(0) =~= v@);
    loop
        invariant
            i <= v.len(),
            acc <= b,
            ({
                let rest = chars_in_bytes(v@.skip(i as int), b - acc);
                chars_in_bytes(v@, b as int) == match rest {
                    Some(k) => Some((k + i) as nat),
                    None => None::<nat>,
                }
            }),
        decreases v.len() - i,
    {
        if acc == b {
            return Some(i);
        }
        if i == v.len() {
            return None;
        }
        let w = char_width(v[i]) as u128;
        if w > b - acc {
            return None;
        }
        assert(v@.skip(i as int).skip(1) =~= v@.skip(i + 1));
        acc = acc + w;
        i += 1;
    }
}

// ---------------------------------------------------------------------
// Parsing unsigned integers

/// Every character of `d` is an ASCII digit.
pub open spec fn all_digits(d: Seq<char>) -> bool {
    forall|i: int| 0 <= i < d.len() ==> (#[trigger] digit_value(d[i])) is Some
}

/// The value of a string of ASCII digits, most significant first.
pub open spec fn digits_value(d: Seq<char>) -> int
    decreases d.len(),
{
    if d.len() == 0 {
        0
    } else {
        digits_value(d.drop_last()) * 10 + digit_value(d.last()).unwrap_or(0)
    }
}

/// What `s.parse::<usize>()` gives: an optional `+`, then one or more ASCII
/// digits whose value fits in `usize`; `None` for every other string.
pub open spec fn parsed_usize(s: Seq<char>) -> Option<int> {
    let d = if s.len() > 0 && s[0] == '+' { s.skip(1) } else { s };
    if d.len() > 0 && all_digits(d) && digits_value(d) <= usize::MAX {
        Some(digits_value(d))
    } else {
        None
    }
}

proof fn lemma_digits_value_grows(d: Seq<char>, k: int)
    requires
        0 <= k <= d.len(),
        all_digits(d),
    ensures
        digits_value(d.take(k)) <= digits_value(d),
        digits_value(d) >= 0,
    decreases d.len(),
{
    if d.len() == 0 {
        assert(d.take(k) =~= d);
    } else if k == d.len() {
        assert(d.take(k) =~= d);
        lemma_digits_value_grows(d.drop_last(), 0);
    } else {
        assert(all_digits(d.drop_last()));
        lemma_digits_value_grows(d.drop_last(), k);
        assert(d.drop_last().take(k) =~= d.take(k));
        assert(digit_value(d.last()) is Some) by {
            assert(digit_value(d[d.len() - 1]) is Some);
        }
    }
}

fn digit_of_char(c: char) -> (r: Option<u8>)
    ensures
        match digit_value(c) {
            Some(v) => r == Some(v as u8),
            None => r is None,
        },
{
    if c == '0' { Some(0) }
    else if c == '1' { Some(1) }
    else if c == '2' { Some(2) }
    else if c == '3' { Some(3) }
    else if c == '4' { Some(4) }
    else if c == '5' { Some(5) }
    else if c == '6' { Some(6) }
    else if c == '7' { Some(7) }
    else if c == '8' { Some(8) }
    else if c == '9' { Some(9) }
    else { None }
}

/// `s.parse::<usize>().ok()`.
pub fn parse_usize(s: &str) -> (r: Option<usize>)
    ensures
        match parsed_usize(s@) {
            Some(n) => r == Some(n as usize),
            None => r is None,
        },
{
    let v = chars_of(s);
    let start: usize = if v.len() > 0 && v[0] == '+' { 1 } else { 0 };
    let ghost d = if s@.len() > 0 && s@[0] == '+' { s@.skip(1) } else { s@ };
    assert(d =~= v@.skip(start as int));
    if start >= v.len() {
        return None;
    }
    let mut value: usize = 0;
    let mut i: usize = start;
    assert(d.take(0) =~= Seq::<char>::empty());
    while i < v.len()
        invariant
            start <= i <= v.len(),
            v@ == s@,
            d == (if s@.len() > 0 && s@[0] == '+' { s@.skip(1) } else { s@ }),
            d == v@.skip(start as int),
            all_digits(d.take(i - start)),
            value as int == digits_value(d.take(i - start)),
        decreases v.len() - i,
    {
        let ghost before = d.take(i - start);
        let ghost after = d.take(i - start + 1);
        assert(after.drop_last() =~= before);
        assert(after.last() == v@[i as int]);
        match digit_of_char(v[i]) {
            None => {
                assert(!all_digits(d)) by {
                    assert(d[i - start] == v@[i as int]);
                    assert(digit_value(d[i - start]) is None);
                }
                return None;
            }
            Some(dv) => {
                if value > (usize::MAX - dv as usize) / 10 {
                    assert(all_digits(d) ==> digits_value(d) > usize::MAX) by {
                        if all_digits(d) {
                            lemma_digits_value_grows(d, i - start + 1);
                            assert(digits_value(after) == value * 10 + dv);
                            let m = usize::MAX as int;
                            let x = value as int;
                            let y = dv as int;
                            assert(x * 10 + y > m) by (nonlinear_arith)
                                requires
                                    x > (m - y) / 10,
                                    0 <= y < 10,
                                    m > 10;
                        }
                    }
                    return None;
                }
                value = value * 10 + dv as usize;
                i += 1;
                assert(all_digits(after)) by {
                    assert forall|j: int| 0 <= j < after.len() implies (#[trigger] digit_value(after[j])) is Some by {
                        if j < after.len() - 1 {
                            assert(after[j] == before[j]);
                        }
                    }
                }
            }
        }
    }
    assert(d.take(i - start) =~= d);
    Some(value)
}


/// Joining one more piece onto the joined prefix of a list.
pub proof fn lemma_joined_take(parts: Seq<Seq<char>>, sep: Seq<char>, k: int)
    requires
        0 <= k < parts.len(),
    ensures
        joined(parts.take(k + 1), sep) == if k == 0 {
            parts[0]
        } else {
            joined(parts.take(k), sep) + sep + parts[k]
        },
{
    assert(parts.take(k + 1).drop_last() =~= parts.take(k));
    if k == 0 {
        assert(parts.take(1).len() == 1);
    }
}

/// `parts.join(sep)` for pieces given as character vectors.
pub fn join_pieces(parts: &Vec<Vec<char>>, sep: &str) -> (r: String)
    ensures
        r@ == joined(parts@.map_values(|p: Vec<char>| p@), sep@),
{
    let ghost views = parts@.map_values(|p: Vec<char>| p@);
    let mut out = String::new();
    let mut k: usize = 0;
    assert(views.take(0) =~= Seq::<Seq<char>>::empty());
    while k < parts.len()
        invariant
            k <= parts.len(),
            views == parts@.map_values(|p: Vec<char>| p@),
            out@ == joined(views.take(k as int), sep@),
        decreases parts.len() - k,
    {
        proof {
            lemma_joined_take(views, sep@, k as int);
        }
        if k > 0 {
            out.append(sep);
        }
        let piece = string_of(&parts[k]);
        out.append(piece.as_str());
        k += 1;
    }
    assert(views.take(k as int) =~= views);
    out
}

/// The digits of `n` read back give `n`, and they never start with `+`.
pub proof fn lemma_decimal_digits(n: nat)
    ensures
        all_digits(decimal(n)),
        digits_value(decimal(n)) == n,
        decimal(n).len() > 0,
        decimal(n)[0] != '+',
    decreases n,
{
    if n < 10 {
        let d = decimal(n);
        assert(d.drop_last() =~= Seq::<char>::empty());
        assert(digits_value(d.drop_last()) == 0);
        assert(digit_value(d.last()) == Some(n as int));
        assert(digits_value(d) == digits_value(d.drop_last()) * 10 + digit_value(d.last()).unwrap_or(0));
    } else {
        lemma_decimal_digits(n / 10);
        let d = decimal(n);
        assert(d.drop_last() =~= decimal(n / 10));
        assert(d[0] == decimal(n / 10)[0]);
        assert(d.last() == digit_char((n % 10) as int));
        assert(digit_value(d.last()) == Some((n % 10) as int));
        assert((n / 10) * 10 + n % 10 == n);
        assert(digits_value(d) == digits_value(d.drop_last()) * 10 + digit_value(d.last()).unwrap_or(0));
        assert forall|i: int| 0 <= i < d.len() implies (#[trigger] digit_value(d[i])) is Some by {
            if i < d.len() - 1 {
                assert(d[i] == decimal(n / 10)[i]);
            }
        }
    }
}

/// Reading a numeral that `Display` wrote gives the number back:
/// `n.to_string().parse::<usize>() == Ok(n)`.
pub proof fn lemma_parse_decimal(n: usize)
    ensures
        parsed_usize(decimal(n as nat)) == Some(n as int),
{
    lemma_decimal_digits(n as nat);
}


/// Replacing a pattern that does not occur changes nothing.
pub proof fn lemma_replaced_absent(s: Seq<char>, p: Seq<char>, to: Seq<char>)
    requires
        !contains_seq(s, p),
    ensures
        replaced(s, p, to) == s,
    decreases s.len(),
{
    if s.len() == 0 || p.len() == 0 {
    } else {
        assert(!occurs_at(s, p, 0));
        assert(!contains_seq(s.skip(1), p)) by {
            if contains_seq(s.skip(1), p) {
                let j = choose|j: int| occurs_at(s.skip(1), p, j);
                assert(s.skip(1).subrange(j, j + p.len()) =~= s.subrange(j + 1, j + 1 + p.len()));
                assert(occurs_at(s, p, j + 1));
            }
        }
        lemma_replaced_absent(s.skip(1), p, to);
        assert(seq![s[0]] + s.skip(1) =~= s);
    }
}

/// Replacing in a string that starts with the pattern replaces that
/// leading occurrence and goes on after it.
pub proof fn lemma_replaced_prefix(p: Seq<char>, rest: Seq<char>, to: Seq<char>)
    requires
        p.len() > 0,
    ensures
        replaced(p + rest, p, to) == to + replaced(rest, p, to),
{
    let s = p + rest;
    assert(s.subrange(0, p.len() as int) =~= p);
    assert(s.skip(p.len() as int) =~= rest);
}

/// `equal_text(a, b)`: the two strings hold the same characters.
pub fn equal_text(a: &str, b: &str) -> (r: bool)
    ensures
        r == (a@ == b@),
{
    let x = String::from_str(a);
    let y = String::from_str(b);
    x == y
}


/// The characters `v[lo..hi]` as a new vector.
pub fn sub_vec(v: &Vec<char>, lo: usize, hi: usize) -> (r: Vec<char>)
    requires
        lo <= hi <= v.len(),
    ensures
        r@ == v@.subrange(lo as int, hi as int),
{
    let mut r: Vec<char> = Vec::new();
    let mut i = lo;
    while i < hi
        invariant
            lo <= i <= hi <= v.len(),
            r@ == v@.subrange(lo as int, i as int),
        decreases hi - i,
    {
        r.push(v[i]);
        i += 1;
        assert(r@ =~= v@.subrange(lo as int, i as int));
    }
    r
}

/// The characters between byte offsets `from` and `to` of `v`, or `None`
/// where `&s[from..to]` would panic.
pub fn byte_slice_of(v: &Vec<char>, from: u128, to: u128) -> (r: Option<String>)
    ensures
        match byte_slice(v@, from as int, to as int) {
            Some(t) => r matches Some(x) && x@ == t,
            None => r is None,
        },
{
    let a = char_index_at_byte(v, from);
    let b = char_index_at_byte(v, to);
    match (a, b) {
        (Some(a), Some(b)) => {
            if a <= b {
                proof {
                    lemma_chars_in_bytes_bound(v@, from as int);
                    lemma_chars_in_bytes_bound(v@, to as int);
                }
                Some(string_of_range(v, a, b))
            } else {
                None
            }
        },
        _ => None,
    }
}

/// A boundary index found by byte offset lies within the string.
pub proof fn lemma_chars_in_bytes_bound(s: Seq<char>, b: int)
    ensures
        chars_in_bytes(s, b) matches Some(k) ==> k <= s.len(),
    decreases s.len(),
{
    if b == 0 {
    } else if b < 0 || s.len() == 0 || utf8_width(s[0]) > b {
    } else {
        lemma_chars_in_bytes_bound(s.skip(1), b - utf8_width(s[0]));
    }
}

/// Taking a pattern out never lengthens a string.
pub proof fn lemma_removed_not_longer(s: Seq<char>, p: Seq<char>)
    ensures
        replaced(s, p, Seq::empty()).len() <= s.len(),
    decreases s.len(),
{
    if s.len() == 0 || p.len() == 0 {
    } else if occurs_at(s, p, 0) {
        lemma_removed_not_longer(s.skip(p.len() as int), p);
        assert(Seq::<char>::empty() + replaced(s.skip(p.len() as int), p, Seq::empty())
            =~= replaced(s.skip(p.len() as int), p, Seq::empty()));
    } else {
        lemma_removed_not_longer(s.skip(1), p);
    }
}


// ---------------------------------------------------------------------
// Laws of words, joining and ASCII case

/// No character of `s` is whitespace.
pub open spec fn no_white(s: Seq<char>) -> bool {
    forall|i: int| 0 <= i < s.len() ==> !is_white(#[trigger] s[i])
}

/// ASCII case mapping composes as expected and keeps characters ASCII and
/// whitespace as whitespace.
pub proof fn lemma_ascii_case(c: char)
    ensures
        ascii_upper(ascii_upper(c)) == ascii_upper(c),
        ascii_upper(ascii_lower(c)) == ascii_upper(c),
        ascii_lower(ascii_lower(c)) == ascii_lower(c),
        ascii_lower(ascii_upper(c)) == ascii_lower(c),
        is_ascii_char(c) ==> is_ascii_char(ascii_upper(c)) && is_ascii_char(ascii_lower(c)),
        is_white(ascii_upper(c)) == is_white(c),
        is_white(ascii_lower(c)) == is_white(c),
{
    let u = c as u32;
    if 0x61 <= u && u <= 0x7a {
        assert((((u - 0x20) as u32) as char) as u32 == u - 0x20);
    }
    if 0x41 <= u && u <= 0x5a {
        assert((((u + 0x20) as u32) as char) as u32 == u + 0x20);
    }
}

/// The words of `s`, a space, then `t`, are the words of each in turn.
pub proof fn lemma_words_after_space(s: Seq<char>, t: Seq<char>, cur: Seq<char>)
    ensures
        words_after(s + seq![' '] + t, cur) == words_after(s, cur) + words_after(t, Seq::empty()),
    decreases s.len(),
{
    let whole = s + seq![' '] + t;
    assert(is_white(' '));
    if s.len() == 0 {
        assert(whole =~= seq![' '] + t);
        assert(whole.skip(1) =~= t);
    } else {
        assert(whole[0] == s[0]);
        assert(whole.skip(1) =~= s.skip(1) + seq![' '] + t);
        if is_white(s[0]) {
            lemma_words_after_space(s.skip(1), t, Seq::empty());
            assert(words_after(whole, cur) =~= word_if_any(cur)
                + (words_after(s.skip(1), Seq::empty()) + words_after(t, Seq::empty())));
        } else {
            lemma_words_after_space(s.skip(1), t, cur.push(s[0]));
        }
    }
}

/// Joining the pieces of two non-empty lists is joining each and putting
/// `sep` between.
pub proof fn lemma_joined_concat(x: Seq<Seq<char>>, y: Seq<Seq<char>>, sep: Seq<char>)
    requires
        x.len() > 0,
        y.len() > 0,
    ensures
        joined(x + y, sep) == joined(x, sep) + sep + joined(y, sep),
    decreases y.len(),
{
    assert((x + y).drop_last() =~= x + y.drop_last());
    assert((x + y).last() == y.last());
    if y.len() == 1 {
        assert(x + y.drop_last() =~= x);
    } else {
        lemma_joined_concat(x, y.drop_last(), sep);
    }
}

/// Every word is non-empty and holds no whitespace.
pub proof fn lemma_words_are_words(s: Seq<char>, cur: Seq<char>)
    requires
        no_white(cur),
    ensures
        forall|k: int| 0 <= k < words_after(s, cur).len() ==> {
            &&& (#[trigger] words_after(s, cur)[k]).len() > 0
            &&& no_white(words_after(s, cur)[k])
        },
    decreases s.len(),
{
    if s.len() == 0 {
        assert forall|k: int| 0 <= k < words_after(s, cur).len() implies {
            &&& (#[trigger] words_after(s, cur)[k]).len() > 0
            &&& no_white(words_after(s, cur)[k])
        } by {
            assert(words_after(s, cur)[k] == cur);
        }
    } else if is_white(s[0]) {
        lemma_words_are_words(s.skip(1), Seq::empty());
        let r = words_after(s.skip(1), Seq::empty());
        assert forall|k: int| 0 <= k < words_after(s, cur).len() implies {
            &&& (#[trigger] words_after(s, cur)[k]).len() > 0
            &&& no_white(words_after(s, cur)[k])
        } by {
            if k >= word_if_any(cur).len() {
                assert(words_after(s, cur)[k] == r[k - word_if_any(cur).len()]);
            } else {
                assert(words_after(s, cur)[k] == cur);
            }
        }
    } else {
        assert(no_white(cur.push(s[0]))) by {
            assert forall|i: int| 0 <= i < cur.push(s[0]).len() implies !is_white(#[trigger] cur.push(s[0])[i]) by {
                if i < cur.len() {
                    assert(cur.push(s[0])[i] == cur[i]);
                }
            }
        }
        lemma_words_are_words(s.skip(1), cur.push(s[0]));
        assert(words_after(s, cur) == words_after(s.skip(1), cur.push(s[0])));
    }
}

/// A run of non-whitespace characters after the partial word `cur` makes
/// one word.
pub proof fn lemma_words_of_word(w: Seq<char>, cur: Seq<char>)
    requires
        no_white(w),
    ensures
        words_after(w, cur) == word_if_any(cur + w),
    decreases w.len(),
{
    if w.len() == 0 {
        assert(cur + w =~= cur);
    } else {
        assert(!is_white(w[0]));
        assert(no_white(w.skip(1))) by {
            assert forall|i: int| 0 <= i < w.skip(1).len() implies !is_white(#[trigger] w.skip(1)[i]) by {
                assert(w.skip(1)[i] == w[i + 1]);
            }
        }
        lemma_words_of_word(w.skip(1), cur.push(w[0]));
        assert(cur.push(w[0]) + w.skip(1) =~= cur + w);
    }
}

/// Splitting words that were joined with single spaces gives them back.
pub proof fn lemma_words_of_joined(ws: Seq<Seq<char>>)
    requires
        forall|k: int| 0 <= k < ws.len() ==> (#[trigger] ws[k]).len() > 0 && no_white(ws[k]),
    ensures
        words(joined(ws, seq![' '])) == ws,
    decreases ws.len(),
{
    if ws.len() == 0 {
    } else if ws.len() == 1 {
        lemma_words_of_word(ws[0], Seq::empty());
        assert(Seq::<char>::empty() + ws[0] =~= ws[0]);
        assert(seq![ws[0]] =~= ws);
    } else {
        let init = ws.drop_last();
        assert forall|k: int| 0 <= k < init.len() implies (#[trigger] init[k]).len() > 0 && no_white(init[k]) by {
            assert(init[k] == ws[k]);
        }
        lemma_words_of_joined(init);
        lemma_words_after_space(joined(init, seq![' ']), ws.last(), Seq::empty());
        lemma_words_of_word(ws.last(), Seq::empty());
        assert(Seq::<char>::empty() + ws.last() =~= ws.last());
        assert(joined(ws, seq![' ']) == joined(init, seq![' ']) + seq![' '] + ws.last());
        assert(init + seq![ws.last()] =~= ws);
    }
}

/// Mapping characters in a way that keeps whitespace and non-whitespace
/// apart maps the words one by one.
pub proof fn lemma_words_map(s: Seq<char>, cur: Seq<char>, f: spec_fn(char) -> char)
    requires
        forall|c: char| #[trigger] is_white(f(c)) == is_white(c),
    ensures
        words_after(s.map_values(f), cur.map_values(f))
            == words_after(s, cur).map_values(|w: Seq<char>| w.map_values(f)),
    decreases s.len(),
{
    let ms = s.map_values(f);
    let g = |w: Seq<char>| w.map_values(f);
    if s.len() == 0 {
        assert(word_if_any(cur.map_values(f)) =~= word_if_any(cur).map_values(g));
    } else {
        assert(ms[0] == f(s[0]));
        assert(ms.skip(1) =~= s.skip(1).map_values(f));
        assert(is_white(f(s[0])) == is_white(s[0]));
        if is_white(s[0]) {
            lemma_words_map(s.skip(1), Seq::empty(), f);
            assert(Seq::<char>::empty().map_values(f) =~= Seq::<char>::empty());
            assert(word_if_any(cur.map_values(f)) =~= word_if_any(cur).map_values(g));
            assert(words_after(s, cur).map_values(g) =~= word_if_any(cur).map_values(g)
                + words_after(s.skip(1), Seq::empty()).map_values(g));
        } else {
            lemma_words_map(s.skip(1), cur.push(s[0]), f);
            assert(cur.push(s[0]).map_values(f) =~= cur.map_values(f).push(f(s[0])));
        }
    }
}


/// The words of an ASCII string are ASCII.
pub proof fn lemma_words_ascii(s: Seq<char>, cur: Seq<char>)
    requires
        ascii_only(s),
        ascii_only(cur),
    ensures
        forall|k: int| 0 <= k < words_after(s, cur).len() ==> ascii_only(#[trigger] words_after(s, cur)[k]),
    decreases s.len(),
{
    if s.len() == 0 {
        assert forall|k: int| 0 <= k < words_after(s, cur).len() implies ascii_only(#[trigger] words_after(s, cur)[k]) by {
            assert(words_after(s, cur)[k] == cur);
        }
    } else {
        assert(ascii_only(s.skip(1))) by {
            assert forall|i: int| 0 <= i < s.skip(1).len() implies is_ascii_char(#[trigger] s.skip(1)[i]) by {
                assert(s.skip(1)[i] == s[i + 1]);
            }
        }
        if is_white(s[0]) {
            lemma_words_ascii(s.skip(1), Seq::empty());
            let r = words_after(s.skip(1), Seq::empty());
            assert forall|k: int| 0 <= k < words_after(s, cur).len() implies ascii_only(#[trigger] words_after(s, cur)[k]) by {
                if k >= word_if_any(cur).len() {
                    assert(words_after(s, cur)[k] == r[k - word_if_any(cur).len()]);
                } else {
                    assert(words_after(s, cur)[k] == cur);
                }
            }
        } else {
            assert(ascii_only(cur.push(s[0]))) by {
                assert forall|i: int| 0 <= i < cur.push(s[0]).len() implies is_ascii_char(#[trigger] cur.push(s[0])[i]) by {
                    if i < cur.len() {
                        assert(cur.push(s[0])[i] == cur[i]);
                    }
                }
            }
            lemma_words_ascii(s.skip(1), cur.push(s[0]));
            assert(words_after(s, cur) == words_after(s.skip(1), cur.push(s[0])));
        }
    }
}


/// A string in which the pattern does not occur is one piece.
pub proof fn lemma_split_on_absent(s: Seq<char>, p: Seq<char>)
    requires
        !contains_seq(s, p),
    ensures
        split_on(s, p) == seq![s],
    decreases s.len(),
{
    if s.len() == 0 || p.len() == 0 {
    } else {
        assert(!occurs_at(s, p, 0));
        assert(!contains_seq(s.skip(1), p)) by {
            if contains_seq(s.skip(1), p) {
                let j = choose|j: int| occurs_at(s.skip(1), p, j);
                assert(s.skip(1).subrange(j, j + p.len()) =~= s.subrange(j + 1, j + 1 + p.len()));
                assert(occurs_at(s, p, j + 1));
            }
        }
        lemma_split_on_absent(s.skip(1), p);
        assert(seq![s[0]] + s.skip(1) =~= s);
        assert(seq![s.skip(1)].update(0, seq![s[0]] + s.skip(1)) =~= seq![s]);
    }
}

/// Where `x` is followed by the pattern and no occurrence starts inside
/// `x`, the first piece is `x` and the rest splits on its own.
pub proof fn lemma_split_on_first(x: Seq<char>, p: Seq<char>, rest: Seq<char>)
    requires
        p.len() > 0,
        forall|i: int| 0 <= i < x.len() ==> !occurs_at(x + p + rest, p, i),
    ensures
        split_on(x + p + rest, p) == seq![x] + split_on(rest, p),
    decreases x.len(),
{
    let s = x + p + rest;
    if x.len() == 0 {
        assert(s =~= p + rest);
        assert(s.subrange(0, p.len() as int) =~= p);
        assert(occurs_at(s, p, 0));
        assert(s.skip(p.len() as int) =~= rest);
        assert(x =~= Seq::<char>::empty());
    } else {
        assert(!occurs_at(s, p, 0));
        let x1 = x.skip(1);
        assert(s.skip(1) =~= x1 + p + rest);
        assert(s[0] == x[0]);
        assert forall|i: int| 0 <= i < x1.len() implies !occurs_at(x1 + p + rest, p, i) by {
            assert((x1 + p + rest).subrange(i, i + p.len()) =~= s.subrange(i + 1, i + 1 + p.len()));
            assert(!occurs_at(s, p, i + 1));
        }
        lemma_split_on_first(x1, p, rest);
        lemma_split_on_nonempty(rest, p);
        assert(seq![x[0]] + x1 =~= x);
        assert((seq![x1] + split_on(rest, p)).update(0, seq![x[0]] + x1) =~= seq![x] + split_on(rest, p));
    }
}

/// Replacing leaves a leading part alone where no occurrence of the
/// pattern starts inside it.
pub proof fn lemma_replaced_keeps_front(x: Seq<char>, rest: Seq<char>, p: Seq<char>, to: Seq<char>)
    requires
        p.len() > 0,
        forall|i: int| 0 <= i < x.len() ==> !occurs_at(x + rest, p, i),
    ensures
        replaced(x + rest, p, to) == x + replaced(rest, p, to),
    decreases x.len(),
{
    let s = x + rest;
    if x.len() == 0 {
        assert(s =~= rest);
        assert(x + replaced(rest, p, to) =~= replaced(rest, p, to));
    } else {
        assert(!occurs_at(s, p, 0));
        let x1 = x.skip(1);
        assert(s.skip(1) =~= x1 + rest);
        assert forall|i: int| 0 <= i < x1.len() implies !occurs_at(x1 + rest, p, i) by {
            if i + p.len() <= (x1 + rest).len() {
                assert((x1 + rest).subrange(i, i + p.len()) =~= s.subrange(i + 1, i + 1 + p.len()));
            }
            assert(!occurs_at(s, p, i + 1));
        }
        lemma_replaced_keeps_front(x1, rest, p, to);
        assert(seq![x[0]] + (x1 + replaced(rest, p, to)) =~= x + replaced(rest, p, to));
    }
}

} // verus!
