//! Character-level scanning used by the parsers of this crate: whitespace,
//! trimming, splitting, ASCII case folding and decimal numbers.

use vstd::prelude::*;
use vstd::string::*;

verus! {

/// Unicode `White_Space`, the property that `char::is_whitespace`,
/// `str::trim` and `str::split_whitespace` go by.
pub open spec fn is_ws(c: char) -> bool {
    let u = c as u32;
    ||| 0x9 <= u <= 0xd
    ||| u == 0x20
    ||| u == 0x85
    ||| u == 0xa0
    ||| u == 0x1680
    ||| 0x2000 <= u <= 0x200a
    ||| u == 0x2028
    ||| u == 0x2029
    ||| u == 0x202f
    ||| u == 0x205f
    ||| u == 0x3000
}

pub fn is_whitespace(c: char) -> (b: bool)
    ensures
        b == is_ws(c),
{
    let u = c as u32;
    (0x9 <= u && u <= 0xd) || u == 0x20 || u == 0x85 || u == 0xa0 || u == 0x1680 || (0x2000 <= u
        && u <= 0x200a) || u == 0x2028 || u == 0x2029 || u == 0x202f || u == 0x205f || u == 0x3000
}

/// `s` without its leading whitespace.
pub open spec fn trim_start(s: Seq<char>) -> Seq<char>
    decreases s.len(),
{
    if s.len() > 0 && is_ws(s[0]) {
        trim_start(s.drop_first())
    } else {
        s
    }
}

/// `s` without its trailing whitespace.
pub open spec fn trim_end(s: Seq<char>) -> Seq<char>
    decreases s.len(),
{
    if s.len() > 0 && is_ws(s.last()) {
        trim_end(s.drop_last())
    } else {
        s
    }
}

/// `s` without leading and trailing whitespace, as `str::trim` gives it.
pub open spec fn trim(s: Seq<char>) -> Seq<char> {
    trim_end(trim_start(s))
}

/// The characters of a string slice, in order.
pub fn chars_of(s: &str) -> (v: Vec<char>)
    ensures
        v@ == s@,
{
    let n = s.unicode_len();
    let mut v: Vec<char> = Vec::new();
    let mut i: usize = 0;
    while i < n
        invariant
            n == s@.len(),
            i <= n,
            v@ == s@.take(i as int),
        decreases n - i,
    {
        v.push(s.get_char(i));
        i = i + 1;
        assert(v@ =~= s@.take(i as int));
    }
    assert(v@ =~= s@);
    v
}

/// The characters `v[lo..hi]` as a new vector.
pub fn slice_chars(v: &Vec<char>, lo: usize, hi: usize) -> (r: Vec<char>)
    requires
        lo <= hi <= v.len(),
    ensures
        r@ == v@.subrange(lo as int, hi as int),
{
    let mut r: Vec<char> = Vec::new();
    let mut i = lo;
    while i < hi
        invariant
            lo <= i <= hi <= v.len(),
            r@ == v@.subrange(lo as int, i as int),
        decreases hi - i,
    {
        r.push(v[i]);
        i = i + 1;
    }
    r
}


/// Removes leading and trailing whitespace.
pub fn trim_chars(v: &Vec<char>) -> (r: Vec<char>)
    ensures
        r@ == trim(v@),
{
    let n = v.len();
    let mut lo: usize = 0;
    assert(v@.subrange(0, n as int) =~= v@);
    while lo < n && is_whitespace(v[lo])
        invariant
            lo <= n == v@.len(),
            trim_start(v@) == trim_start(v@.subrange(lo as int, n as int)),
        decreases n - lo,
    {
        assert(v@.subrange(lo as int, n as int).drop_first() =~= v@.subrange(lo + 1, n as int));
        lo = lo + 1;
    }
    assert(trim_start(v@) == v@.subrange(lo as int, n as int));
    let mut hi: usize = n;
    while hi > lo && is_whitespace(v[hi - 1])
        invariant
            lo <= hi <= n == v@.len(),
            trim(v@) == trim_end(v@.subrange(lo as int, hi as int)),
        decreases hi,
    {
        assert(v@.subrange(lo as int, hi as int).drop_last() =~= v@.subrange(lo as int, hi - 1));
        hi = hi - 1;
    }
    slice_chars(v, lo, hi)
}

/// Whether two character sequences are equal.
pub fn chars_eq(a: &Vec<char>, b: &Vec<char>) -> (r: bool)
    ensures
        r == (a@ == b@),
{
    if a.len() != b.len() {
        return false;
    }
    let mut i: usize = 0;
    while i < a.len()
        invariant
            a.len() == b.len(),
            i <= a.len(),
            forall|j: int| 0 <= j < i ==> a@[j] == b@[j],
        decreases a.len() - i,
    {
        if a[i] != b[i] {
            return false;
        }
        i = i + 1;
    }
    assert(a@ =~= b@);
    true
}

/// Position of the first `c` in `s`, or the length of `s` when there is none.
pub open spec fn char_pos(s: Seq<char>, c: char) -> nat
    decreases s.len(),
{
    if s.len() == 0 || s[0] == c {
        0
    } else {
        1 + char_pos(s.drop_first(), c)
    }
}

pub proof fn lemma_char_pos(s: Seq<char>, c: char)
    ensures
        char_pos(s, c) <= s.len(),
        char_pos(s, c) < s.len() ==> s[char_pos(s, c) as int] == c,
        forall|i: int| 0 <= i < char_pos(s, c) ==> s[i] != c,
        (char_pos(s, c) < s.len()) == s.contains(c),
    decreases s.len(),
{
    if s.len() > 0 && s[0] != c {
        lemma_char_pos(s.drop_first(), c);
        assert forall|i: int| 0 <= i < char_pos(s, c) implies s[i] != c by {
            if i > 0 {
                assert(s[i] == s.drop_first()[i - 1]);
            }
        }
        if s.contains(c) {
            let k = choose|k: int| 0 <= k < s.len() && s[k] == c;
            assert(s.drop_first()[k - 1] == c);
        }
        if s.drop_first().contains(c) {
            let k = choose|k: int| 0 <= k < s.drop_first().len() && s.drop_first()[k] == c;
            assert(s[k + 1] == c);
        }
    } else if s.len() > 0 {
        assert(s[0] == c);
    }
}

/// `s` cut at its first `c`: the part before it and the part after it.
pub open spec fn split_once(s: Seq<char>, c: char) -> Option<(Seq<char>, Seq<char>)> {
    let p = char_pos(s, c);
    if p < s.len() {
        Some((s.take(p as int), s.skip((p + 1) as int)))
    } else {
        None
    }
}

/// Index of the first `c` in `v`, or `v.len()`.
pub fn find_char(v: &Vec<char>, c: char) -> (p: usize)
    ensures
        p == char_pos(v@, c),
{
    let mut i: usize = 0;
    assert(v@.skip(0) =~= v@);
    while i < v.len() && v[i] != c
        invariant
            i <= v.len(),
            char_pos(v@, c) == i + char_pos(v@.skip(i as int), c),
        decreases v.len() - i,
    {
        assert(v@.skip(i as int).drop_first() =~= v@.skip(i + 1));
        i = i + 1;
    }
    i
}

/// `s` split at every `c`, as `str::split` with a `char` pattern does it.
pub open spec fn split_all(s: Seq<char>, c: char) -> Seq<Seq<char>>
    decreases s.len(),
{
    let p = char_pos(s, c);
    if p < s.len() {
        seq![s.take(p as int)] + split_all(s.skip((p + 1) as int), c)
    } else {
        seq![s]
    }
}

/// Length of the run of non-whitespace characters at the start of `s`.
pub open spec fn word_len(s: Seq<char>) -> nat
    decreases s.len(),
{
    if s.len() == 0 || is_ws(s[0]) {
        0
    } else {
        1 + word_len(s.drop_first())
    }
}

pub proof fn lemma_word_len(s: Seq<char>)
    ensures
        word_len(s) <= s.len(),
    decreases s.len(),
{
    if s.len() > 0 && !is_ws(s[0]) {
        lemma_word_len(s.drop_first());
    }
}

/// The whitespace-separated words of `s`, as `str::split_whitespace` yields them.
pub open spec fn words(s: Seq<char>) -> Seq<Seq<char>>
    decreases s.len(),
{
    if s.len() == 0 {
        seq![]
    } else if is_ws(s[0]) {
        words(s.drop_first())
    } else {
        let w = word_len(s);
        proof {
            lemma_word_len(s);
        }
        seq![s.take(w as int)] + words(s.skip(w as int))
    }
}

/// Whitespace at the end does not change the length of the first word.
proof fn lemma_word_len_push_ws(s: Seq<char>, c: char)
    requires
        is_ws(c),
    ensures
        word_len(s.push(c)) == word_len(s),
    decreases s.len(),
{
    if s.len() > 0 && !is_ws(s[0]) {
        assert(s.push(c).drop_first() =~= s.drop_first().push(c));
        lemma_word_len_push_ws(s.drop_first(), c);
    }
}

/// Whitespace at the end does not change the words.
pub proof fn lemma_words_push_ws(s: Seq<char>, c: char)
    requires
        is_ws(c),
    ensures
        words(s.push(c)) == words(s),
    decreases s.len(),
{
    let p = s.push(c);
    if s.len() == 0 {
        assert(p.drop_first() =~= Seq::<char>::empty());
        assert(words(p) == words(p.drop_first()));
        assert(words(Seq::<char>::empty()) =~= Seq::<Seq<char>>::empty());
    } else if is_ws(s[0]) {
        assert(p.drop_first() =~= s.drop_first().push(c));
        lemma_words_push_ws(s.drop_first(), c);
        assert(words(p) == words(p.drop_first()));
    } else {
        lemma_word_len_push_ws(s, c);
        lemma_word_len(s);
        let w = word_len(s);
        assert(w >= 1);
        assert(p.take(w as int) =~= s.take(w as int));
        assert(p.skip(w as int) =~= s.skip(w as int).push(c));
        lemma_words_push_ws(s.skip(w as int), c);
        assert(words(p) == seq![p.take(w as int)] + words(p.skip(w as int)));
    }
}

/// Trimming does not change the words.
pub proof fn lemma_words_trim(s: Seq<char>)
    ensures
        words(trim(s)) == words(s),
        words(trim_start(s)) == words(s),
        words(trim_end(s)) == words(s),
{
    lemma_words_trim_start(s);
    lemma_words_trim_end(s);
    lemma_words_trim_end(trim_start(s));
}

proof fn lemma_words_trim_start(s: Seq<char>)
    ensures
        words(trim_start(s)) == words(s),
    decreases s.len(),
{
    if s.len() > 0 && is_ws(s[0]) {
        lemma_words_trim_start(s.drop_first());
    }
}

proof fn lemma_words_trim_end(s: Seq<char>)
    ensures
        words(trim_end(s)) == words(s),
    decreases s.len(),
{
    if s.len() > 0 && is_ws(s.last()) {
        lemma_words_trim_end(s.drop_last());
        assert(s.drop_last().push(s.last()) =~= s);
        lemma_words_push_ws(s.drop_last(), s.last());
    }
}

proof fn lemma_trim_start_first(s: Seq<char>)
    ensures
        trim_start(s).len() > 0 ==> !is_ws(trim_start(s)[0]),
    decreases s.len(),
{
    if s.len() > 0 && is_ws(s[0]) {
        lemma_trim_start_first(s.drop_first());
    }
}

proof fn lemma_trim_end_prefix(s: Seq<char>)
    ensures
        trim_end(s).len() <= s.len(),
        trim_end(s) == s.take(trim_end(s).len() as int),
        trim_end(s).len() > 0 ==> !is_ws(trim_end(s).last()),
    decreases s.len(),
{
    if s.len() > 0 && is_ws(s.last()) {
        lemma_trim_end_prefix(s.drop_last());
        assert(s.drop_last().take(trim_end(s).len() as int) =~= s.take(trim_end(s).len() as int));
    } else {
        assert(s.take(s.len() as int) =~= s);
    }
}

/// A trimmed text has no whitespace at either end.
pub proof fn lemma_trim_ends(s: Seq<char>)
    ensures
        trim(s).len() > 0 ==> !is_ws(trim(s)[0]) && !is_ws(trim(s).last()),
        trim(trim(s)) == trim(s),
{
    let ts = trim_start(s);
    lemma_trim_start_first(s);
    lemma_trim_end_prefix(ts);
    let t = trim(s);
    if t.len() > 0 {
        assert(t[0] == ts[0]);
        assert(trim_start(t) == t);
        assert(trim_end(t) == t);
    } else {
        assert(trim_start(t) == t);
        assert(trim_end(t) == t);
    }
}

/// `0 ` in front adds the word `0` in front.
pub proof fn lemma_words_zero_prefix(x: Seq<char>)
    ensures
        words(seq!['0', ' '] + x) == seq![seq!['0']] + words(x),
{
    let p = seq!['0', ' '] + x;
    assert(!is_ws('0'));
    assert(p.drop_first() =~= seq![' '] + x);
    assert(is_ws(p.drop_first()[0]));
    assert(word_len(p.drop_first()) == 0);
    assert(word_len(p) == 1);
    assert(p.take(1) =~= seq!['0']);
    assert(p.skip(1) =~= seq![' '] + x);
    assert((seq![' '] + x).drop_first() =~= x);
    assert(words(seq![' '] + x) == words(x));
    assert(words(p) == seq![p.take(1)] + words(p.skip(1)));
}

/// The whitespace-separated words of `v`.
pub fn split_words(v: &Vec<char>) -> (r: Vec<Vec<char>>)
    ensures
        r@.len() == words(v@).len(),
        forall|k: int| 0 <= k < r@.len() ==> #[trigger] r@[k]@ == words(v@)[k],
{
    let n = v.len();
    let mut r: Vec<Vec<char>> = Vec::new();
    let ghost mut done: Seq<Seq<char>> = seq![];
    let mut i: usize = 0;
    assert(v@.skip(0) =~= v@);
    while i < n
        invariant
            n == v@.len(),
            i <= n,
            words(v@) == done + words(v@.skip(i as int)),
            r@.len() == done.len(),
            forall|k: int| 0 <= k < r@.len() ==> #[trigger] r@[k]@ == done[k],
        decreases n - i,
    {
        let ghost rest = v@.skip(i as int);
        if is_whitespace(v[i]) {
            assert(rest.drop_first() =~= v@.skip(i + 1));
            i = i + 1;
        } else {
            let mut j: usize = i;
            while j < n && !is_whitespace(v[j])
                invariant
                    i <= j <= n == v@.len(),
                    rest == v@.skip(i as int),
                    word_len(rest) == (j - i) + word_len(v@.skip(j as int)),
                decreases n - j,
            {
                assert(v@.skip(j as int).drop_first() =~= v@.skip(j + 1));
                j = j + 1;
            }
            assert(word_len(v@.skip(j as int)) == 0);
            let w = slice_chars(v, i, j);
            assert(w@ =~= rest.take((j - i) as int));
            assert(rest.skip((j - i) as int) =~= v@.skip(j as int));
            proof {
                done = done.push(w@);
                assert(words(v@) =~= done + words(v@.skip(j as int)));
            }
            r.push(w);
            i = j;
        }
    }
    assert(v@.skip(n as int) =~= seq![]);
    assert(done =~= words(v@));
    r
}

/// ASCII upper case of one character.
pub open spec fn upper_char(c: char) -> char {
    if 'a' <= c <= 'z' {
        ((c as u32) - 32) as char
    } else {
        c
    }
}

/// ASCII upper case, as `str::to_ascii_uppercase` gives it.
pub open spec fn ascii_upper(s: Seq<char>) -> Seq<char> {
    s.map_values(|c: char| upper_char(c))
}

pub fn to_ascii_upper(v: &Vec<char>) -> (r: Vec<char>)
    ensures
        r@ == ascii_upper(v@),
{
    let mut r: Vec<char> = Vec::new();
    let mut i: usize = 0;
    while i < v.len()
        invariant
            i <= v.len(),
            r@ == ascii_upper(v@.take(i as int)),
        decreases v.len() - i,
    {
        let c = v[i];
        let u = if 'a' <= c && c <= 'z' {
            ((c as u8) - 32) as char
        } else {
            c
        };
        r.push(u);
        i = i + 1;
        assert(ascii_upper(v@.take(i as int)) =~= ascii_upper(v@.take(i - 1)).push(u));
    }
    assert(v@.take(v.len() as int) =~= v@);
    r
}

pub open spec fn is_digit(c: char) -> bool {
    '0' <= c <= '9'
}

pub open spec fn all_digits(s: Seq<char>) -> bool {
    forall|i: int| 0 <= i < s.len() ==> is_digit(#[trigger] s[i])
}

/// The number that a string of decimal digits spells.
pub open spec fn digits_value(s: Seq<char>) -> nat
    decreases s.len(),
{
    if s.len() == 0 {
        0
    } else {
        digits_value(s.drop_last()) * 10 + ((s.last() as u32) - ('0' as u32)) as nat
    }
}

/// What `u32::from_str` accepts: an optional `+`, then one or more decimal
/// digits whose value fits in 32 bits.
pub open spec fn parse_u32_spec(s: Seq<char>) -> Option<u32> {
    let d = if s.len() > 0 && s[0] == '+' {
        s.drop_first()
    } else {
        s
    };
    if d.len() > 0 && all_digits(d) && digits_value(d) <= u32::MAX {
        Some(digits_value(d) as u32)
    } else {
        None
    }
}

proof fn lemma_digits_grow(s: Seq<char>, k: int)
    requires
        0 <= k <= s.len(),
        all_digits(s),
    ensures
        digits_value(s.take(k)) <= digits_value(s),
    decreases s.len() - k,
{
    if k < s.len() {
        lemma_digits_grow(s, k + 1);
        assert(s.take(k + 1).drop_last() =~= s.take(k));
    } else {
        assert(s.take(k) =~= s);
    }
}

/// Upper-casing a character: idempotent, keeps whitespace and digits, and
/// turns no other character into one that is not an upper-case letter.
pub proof fn lemma_upper_char(c: char)
    ensures
        upper_char(upper_char(c)) == upper_char(c),
        is_ws(upper_char(c)) == is_ws(c),
        is_digit(upper_char(c)) == is_digit(c),
{
    if 'a' <= c <= 'z' {
        let u = ((c as u32) - 32) as char;
        assert('A' <= u <= 'Z');
    }
}

/// Only `m` itself upper-cases to `m` when `m` is no ASCII letter.
pub proof fn lemma_upper_char_to(c: char, m: char)
    requires
        !('A' <= m <= 'Z'),
        !('a' <= m <= 'z'),
    ensures
        (upper_char(c) == m) == (c == m),
{
    lemma_upper_char(c);
    if 'a' <= c <= 'z' {
        let u = ((c as u32) - 32) as char;
        assert('A' <= u <= 'Z');
    }
}

/// Upper-casing all of `s`, character by character.
pub proof fn lemma_upper_seq(s: Seq<char>)
    ensures
        ascii_upper(s).len() == s.len(),
        forall|i: int| 0 <= i < s.len() ==> #[trigger] ascii_upper(s)[i] == upper_char(s[i]),
        ascii_upper(ascii_upper(s)) == ascii_upper(s),
        forall|i: int| 0 <= i <= s.len() ==> #[trigger] ascii_upper(s.take(i)) == ascii_upper(s).take(i),
        forall|i: int| 0 <= i <= s.len() ==> #[trigger] ascii_upper(s.skip(i)) == ascii_upper(s).skip(i),
{
    assert forall|i: int| 0 <= i < s.len() implies ascii_upper(ascii_upper(s))[i] == ascii_upper(s)[i] by {
        lemma_upper_char(s[i]);
    }
    assert(ascii_upper(ascii_upper(s)) =~= ascii_upper(s));
    assert forall|i: int| 0 <= i <= s.len() implies #[trigger] ascii_upper(s.take(i)) == ascii_upper(s).take(i) by {
        assert(ascii_upper(s.take(i)) =~= ascii_upper(s).take(i));
    }
    assert forall|i: int| 0 <= i <= s.len() implies #[trigger] ascii_upper(s.skip(i)) == ascii_upper(s).skip(i) by {
        assert(ascii_upper(s.skip(i)) =~= ascii_upper(s).skip(i));
    }
}

/// Upper-casing keeps the positions of characters that are no ASCII
/// letters.
pub proof fn lemma_upper_char_pos(s: Seq<char>, c: char)
    requires
        !('A' <= c <= 'Z'),
        !('a' <= c <= 'z'),
    ensures
        char_pos(ascii_upper(s), c) == char_pos(s, c),
        ascii_upper(s).contains(c) == s.contains(c),
    decreases s.len(),
{
    lemma_char_pos(s, c);
    lemma_char_pos(ascii_upper(s), c);
    lemma_upper_seq(s);
    if s.len() > 0 {
        lemma_upper_char_to(s[0], c);
        assert(ascii_upper(s).drop_first() =~= ascii_upper(s.drop_first()));
        lemma_upper_char_pos(s.drop_first(), c);
    }
    if s.contains(c) {
        let k = choose|k: int| 0 <= k < s.len() && s[k] == c;
        assert(ascii_upper(s)[k] == c);
    }
    if ascii_upper(s).contains(c) {
        let k = choose|k: int| 0 <= k < s.len() && ascii_upper(s)[k] == c;
        lemma_upper_char_to(s[k], c);
    }
}

/// Upper-casing and trimming commute.
pub proof fn lemma_upper_trim(s: Seq<char>)
    ensures
        trim(ascii_upper(s)) == ascii_upper(trim(s)),
{
    lemma_upper_trim_start(s);
    lemma_upper_trim_end(trim_start(s));
}

proof fn lemma_upper_trim_start(s: Seq<char>)
    ensures
        trim_start(ascii_upper(s)) == ascii_upper(trim_start(s)),
    decreases s.len(),
{
    lemma_upper_seq(s);
    if s.len() > 0 {
        lemma_upper_char(s[0]);
        assert(ascii_upper(s).drop_first() =~= ascii_upper(s.drop_first()));
        lemma_upper_trim_start(s.drop_first());
    }
}

proof fn lemma_upper_trim_end(s: Seq<char>)
    ensures
        trim_end(ascii_upper(s)) == ascii_upper(trim_end(s)),
    decreases s.len(),
{
    lemma_upper_seq(s);
    if s.len() > 0 {
        lemma_upper_char(s.last());
        assert(ascii_upper(s).drop_last() =~= ascii_upper(s.drop_last()));
        lemma_upper_trim_end(s.drop_last());
    }
}

/// Numbers read the same after upper-casing.
pub proof fn lemma_upper_parse_u32(s: Seq<char>)
    ensures
        parse_u32_spec(ascii_upper(s)) == parse_u32_spec(s),
{
    let u = ascii_upper(s);
    lemma_upper_seq(s);
    if s.len() > 0 {
        lemma_upper_char_to(s[0], '+');
    }
    let d = if s.len() > 0 && s[0] == '+' {
        s.drop_first()
    } else {
        s
    };
    let du = if u.len() > 0 && u[0] == '+' {
        u.drop_first()
    } else {
        u
    };
    assert(du =~= ascii_upper(d));
    lemma_upper_seq(d);
    assert forall|i: int| 0 <= i < d.len() implies is_digit(du[i]) == is_digit(d[i]) by {
        lemma_upper_char(d[i]);
    }
    if all_digits(d) {
        assert forall|i: int| 0 <= i < d.len() implies du[i] == d[i] by {
            assert(is_digit(d[i]));
        }
        assert(du =~= d);
    } else {
        let i = choose|i: int| 0 <= i < d.len() && !is_digit(d[i]);
        assert(!is_digit(du[i]));
    }
}

/// The words of an upper-cased text are the upper-cased words.
pub proof fn lemma_upper_words(s: Seq<char>)
    ensures
        words(ascii_upper(s)) == words(s).map_values(|w: Seq<char>| ascii_upper(w)),
    decreases s.len(),
{
    let u = ascii_upper(s);
    lemma_upper_seq(s);
    if s.len() == 0 {
        assert(words(s).map_values(|w: Seq<char>| ascii_upper(w)) =~= Seq::<Seq<char>>::empty());
    } else {
        lemma_upper_char(s[0]);
        if is_ws(s[0]) {
            assert(u.drop_first() =~= ascii_upper(s.drop_first()));
            lemma_upper_words(s.drop_first());
        } else {
            lemma_upper_word_len(s);
            lemma_word_len(s);
            let w = word_len(s);
            lemma_upper_words(s.skip(w as int));
            assert(words(u) == seq![u.take(w as int)] + words(u.skip(w as int)));
            assert(words(s).map_values(|x: Seq<char>| ascii_upper(x)) =~= seq![ascii_upper(
                s.take(w as int),
            )] + words(s.skip(w as int)).map_values(|x: Seq<char>| ascii_upper(x)));
        }
    }
}

proof fn lemma_upper_word_len(s: Seq<char>)
    ensures
        word_len(ascii_upper(s)) == word_len(s),
    decreases s.len(),
{
    lemma_upper_seq(s);
    if s.len() > 0 {
        lemma_upper_char(s[0]);
        assert(ascii_upper(s).drop_first() =~= ascii_upper(s.drop_first()));
        lemma_upper_word_len(s.drop_first());
    }
}

/// Parses a decimal `u32` as `u32::from_str` does.
pub fn parse_u32(v: &Vec<char>) -> (r: Option<u32>)
    ensures
        r == parse_u32_spec(v@),
{
    let start: usize = if v.len() > 0 && v[0] == '+' {
        1
    } else {
        0
    };
    let ghost d = if v@.len() > 0 && v@[0] == '+' {
        v@.drop_first()
    } else {
        v@
    };
    assert(d =~= v@.skip(start as int));
    if start == v.len() {
        return None;
    }
    let mut acc: u64 = 0;
    let mut i: usize = start;
    while i < v.len()
        invariant
            start <= i <= v.len(),
            d == v@.skip(start as int),
            d == (if v@.len() > 0 && v@[0] == '+' {
                v@.drop_first()
            } else {
                v@
            }),
            all_digits(d.take(i - start)),
            acc == digits_value(d.take(i - start)),
            acc <= u32::MAX,
        decreases v.len() - i,
    {
        let c = v[i];
        if !('0' <= c && c <= '9') {
            assert(d[i - start] == c);
            assert(!is_digit(d[i - start]));
            return None;
        }
        let ghost prev = d.take(i - start);
        acc = acc * 10 + ((c as u32) - ('0' as u32)) as u64;
        i = i + 1;
        assert(d.take(i - start).drop_last() =~= prev);
        assert(d.take(i - start).last() == c);
        assert(acc == digits_value(d.take(i - start)));
        assert(all_digits(d.take(i - start))) by {
            assert forall|j: int| 0 <= j < d.take(i - start).len() implies is_digit(
                #[trigger] d.take(i - start)[j],
            ) by {
                if j < prev.len() {
                    assert(d.take(i - start)[j] == prev[j]);
                }
            }
        }
        if acc > 0xffff_ffff {
            proof {
                if all_digits(d) {
                    lemma_digits_grow(d, i - start);
                }
            }
            return None;
        }
    }
    assert(d.take(i - start) =~= d);
    Some(acc as u32)
}


/// What `usize::from_str` accepts: an optional `+`, then one or more
/// decimal digits whose value fits in a `usize`.
pub open spec fn parse_usize_spec(s: Seq<char>) -> Option<usize> {
    let d = if s.len() > 0 && s[0] == '+' {
        s.drop_first()
    } else {
        s
    };
    if d.len() > 0 && all_digits(d) && digits_value(d) <= usize::MAX {
        Some(digits_value(d) as usize)
    } else {
        None
    }
}

/// Parses a decimal `usize` as `usize::from_str` does.
pub fn parse_usize(v: &Vec<char>) -> (r: Option<usize>)
    ensures
        r == parse_usize_spec(v@),
{
    let start: usize = if v.len() > 0 && v[0] == '+' {
        1
    } else {
        0
    };
    let ghost d = if v@.len() > 0 && v@[0] == '+' {
        v@.drop_first()
    } else {
        v@
    };
    assert(d =~= v@.skip(start as int));
    if start == v.len() {
        return None;
    }
    let mut acc: u128 = 0;
    let mut i: usize = start;
    while i < v.len()
        invariant
            start <= i <= v.len(),
            d == v@.skip(start as int),
            d == (if v@.len() > 0 && v@[0] == '+' {
                v@.drop_first()
            } else {
                v@
            }),
            all_digits(d.take(i - start)),
            acc == digits_value(d.take(i - start)),
            acc <= usize::MAX,
        decreases v.len() - i,
    {
        let c = v[i];
        if !('0' <= c && c <= '9') {
            assert(d[i - start] == c);
            assert(!is_digit(d[i - start]));
            return None;
        }
        let ghost prev = d.take(i - start);
        acc = acc * 10 + ((c as u32) - ('0' as u32)) as u128;
        i = i + 1;
        assert(d.take(i - start).drop_last() =~= prev);
        assert(d.take(i - start).last() == c);
        assert(acc == digits_value(d.take(i - start)));
        assert(all_digits(d.take(i - start))) by {
            assert forall|j: int| 0 <= j < d.take(i - start).len() implies is_digit(
                #[trigger] d.take(i - start)[j],
            ) by {
                if j < prev.len() {
                    assert(d.take(i - start)[j] == prev[j]);
                }
            }
        }
        if acc > usize::MAX as u128 {
            proof {
                if all_digits(d) {
                    lemma_digits_grow(d, i - start);
                }
            }
            return None;
        }
    }
    assert(d.take(i - start) =~= d);
    Some(acc as usize)
}


/// Whether two strings hold the same characters.
pub fn str_eq(a: &str, b: &str) -> (r: bool)
    ensures
        r == (a@ == b@),
{
    let x = chars_of(a);
    let y = chars_of(b);
    chars_eq(&x, &y)
}

/// Whether `needle` occurs in `hay` at position `i`.
pub open spec fn occurs_at(hay: Seq<char>, needle: Seq<char>, i: int) -> bool {
    0 <= i && i + needle.len() <= hay.len() && hay.subrange(i, i + needle.len()) == needle
}

/// `s` without the prefix `p`, or `None` when `s` does not start with `p`,
/// as `str::strip_prefix` gives it.
pub open spec fn strip_prefix_spec(s: Seq<char>, p: Seq<char>) -> Option<Seq<char>> {
    if occurs_at(s, p, 0) {
        Some(s.skip(p.len() as int))
    } else {
        None
    }
}

/// Removes the prefix `p` from `s`, if `s` starts with it.
pub fn strip_prefix(s: &str, p: &str) -> (r: Option<String>)
    ensures
        match r {
            Some(t) => strip_prefix_spec(s@, p@) == Some(t@),
            None => strip_prefix_spec(s@, p@) is None,
        },
{
    let sv = chars_of(s);
    let pv = chars_of(p);
    if pv.len() > sv.len() {
        return None;
    }
    let mut i: usize = 0;
    while i < pv.len()
        invariant
            sv@ == s@,
            pv@ == p@,
            pv.len() <= sv.len(),
            i <= pv.len(),
            forall|m: int| 0 <= m < i ==> sv@[m] == pv@[m],
        decreases pv.len() - i,
    {
        if sv[i] != pv[i] {
            assert(sv@.subrange(0, pv.len() as int)[i as int] != pv@[i as int]);
            assert(!occurs_at(s@, p@, 0));
            return None;
        }
        i = i + 1;
    }
    assert(sv@.subrange(0, pv.len() as int) =~= pv@);
    let rest = slice_chars(&sv, pv.len(), sv.len());
    assert(rest@ =~= sv@.skip(pv.len() as int));
    assert(occurs_at(s@, p@, 0));
    let res = string_from_chars(&rest);
    assert(strip_prefix_spec(s@, p@) == Some(res@));
    Some(res)
}

/// Whether `needle` occurs in `hay`, as `str::contains` tells.
pub open spec fn contains_seq(hay: Seq<char>, needle: Seq<char>) -> bool {
    exists|i: int| occurs_at(hay, needle, i)
}

/// Whether `needle` occurs in `hay`.
pub fn contains_chars(hay: &Vec<char>, needle: &Vec<char>) -> (r: bool)
    ensures
        r == contains_seq(hay@, needle@),
{
    if needle.len() > hay.len() {
        assert forall|i: int| !occurs_at(hay@, needle@, i) by {}
        return false;
    }
    let mut i: usize = 0;
    while i <= hay.len() - needle.len()
        invariant
            needle.len() <= hay.len(),
            i <= hay.len() - needle.len() + 1,
            forall|k: int| 0 <= k < i ==> !occurs_at(hay@, needle@, k),
        decreases hay.len() - i,
    {
        let mut j: usize = 0;
        let mut same = true;
        while j < needle.len()
            invariant
                i + needle.len() <= hay.len(),
                j <= needle.len(),
                same == (forall|m: int| 0 <= m < j ==> hay@[i + m] == needle@[m]),
            decreases needle.len() - j,
        {
            if hay[i + j] != needle[j] {
                same = false;
            }
            j = j + 1;
        }
        if same {
            assert(hay@.subrange(i as int, i + needle.len()) =~= needle@);
            assert(occurs_at(hay@, needle@, i as int));
            return true;
        }
        assert(!occurs_at(hay@, needle@, i as int)) by {
            let m = choose|m: int| 0 <= m < needle.len() && hay@[i + m] != needle@[m];
            assert(hay@.subrange(i as int, i + needle.len())[m] != needle@[m]);
        }
        i = i + 1;
    }
    assert forall|k: int| !occurs_at(hay@, needle@, k) by {
        if 0 <= k < i {
        }
    }
    false
}

/// `String::push`: appends one character.
#[verifier::external_body]
pub(crate) fn push_char(s: &mut String, c: char)
    ensures
        final(s)@ == old(s)@.push(c),
{
    s.push(c);
}

/// The character of a decimal digit.
pub open spec fn digit_char(d: nat) -> char {
    if d == 0 {
        '0'
    } else if d == 1 {
        '1'
    } else if d == 2 {
        '2'
    } else if d == 3 {
        '3'
    } else if d == 4 {
        '4'
    } else if d == 5 {
        '5'
    } else if d == 6 {
        '6'
    } else if d == 7 {
        '7'
    } else if d == 8 {
        '8'
    } else {
        '9'
    }
}

/// The decimal digits of `n`, most significant first, with no leading
/// zero (`0` is one digit).
pub open spec fn decimal(n: nat) -> Seq<char>
    decreases n,
{
    if n < 10 {
        seq![digit_char(n)]
    } else {
        decimal(n / 10).push(digit_char(n % 10))
    }
}

/// How an integer is written in decimal: a minus sign before the digits of
/// a negative one.
pub open spec fn int_text(n: int) -> Seq<char> {
    if n < 0 {
        seq!['-'] + decimal((-n) as nat)
    } else {
        decimal(n as nat)
    }
}

/// Appends the decimal digits of `n` to `out`.
fn push_decimal(out: &mut Vec<char>, n: u64)
    ensures
        final(out)@ == old(out)@ + decimal(n as nat),
    decreases n,
{
    if n >= 10 {
        push_decimal(out, n / 10);
    }
    let d = n % 10;
    let c = if d == 0 {
        '0'
    } else if d == 1 {
        '1'
    } else if d == 2 {
        '2'
    } else if d == 3 {
        '3'
    } else if d == 4 {
        '4'
    } else if d == 5 {
        '5'
    } else if d == 6 {
        '6'
    } else if d == 7 {
        '7'
    } else if d == 8 {
        '8'
    } else {
        '9'
    };
    out.push(c);
    proof {
        assert(c == digit_char((n % 10) as nat));
        if n >= 10 {
            assert(decimal(n as nat) == decimal((n / 10) as nat).push(digit_char((n % 10) as nat)));
        }
    }
}

/// Appends `n` written in decimal to `out`.
pub fn push_int(out: &mut Vec<char>, n: i64)
    ensures
        final(out)@ == old(out)@ + int_text(n as int),
{
    if n < 0 {
        out.push('-');
        let m: u64 = if n == i64::MIN {
            9_223_372_036_854_775_808
        } else {
            (-n) as u64
        };
        let ghost mid = out@;
        push_decimal(out, m);
        assert(out@ =~= old(out)@ + int_text(n as int));
    } else {
        push_decimal(out, n as u64);
    }
}

/// Appends the characters of `s` to `out`.
pub fn push_str(out: &mut Vec<char>, s: &str)
    ensures
        final(out)@ == old(out)@ + s@,
{
    let v = chars_of(s);
    let mut i: usize = 0;
    while i < v.len()
        invariant
            i <= v.len(),
            v@ == s@,
            out@ == old(out)@ + v@.take(i as int),
        decreases v.len() - i,
    {
        out.push(v[i]);
        i = i + 1;
        assert(out@ =~= old(out)@ + v@.take(i as int));
    }
    assert(v@.take(v.len() as int) =~= v@);
}

/// A `String` holding the characters `v`.
pub fn string_from_chars(v: &Vec<char>) -> (s: String)
    ensures
        s@ == v@,
{
    let mut s = String::new();
    let mut i: usize = 0;
    while i < v.len()
        invariant
            i <= v.len(),
            s@ == v@.take(i as int),
        decreases v.len() - i,
    {
        push_char(&mut s, v[i]);
        i = i + 1;
        assert(s@ =~= v@.take(i as int));
    }
    assert(v@.take(v.len() as int) =~= v@);
    s
}

} // verus!
