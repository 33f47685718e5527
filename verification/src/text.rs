//! Character-level text helpers shared by the parsers of the library.
//!
//! Strings are reasoned about through their view, a `Seq<char>`. Lowercasing,
//! which depends on the Unicode case tables, is the named result of the
//! standard library function that computes it.
use vstd::prelude::*;

verus! {

/// Whether `c` has the Unicode `White_Space` property (the property
/// `char::is_whitespace` reports): U+0009..=U+000D, U+0020, U+0085, U+00A0,
/// U+1680, U+2000..=U+200A, U+2028, U+2029, U+202F, U+205F and U+3000.
pub open spec fn unicode_white_space(c: char) -> bool {
    let u = c as u32;
    ||| 0x9 <= u <= 0xD
    ||| u == 0x20
    ||| u == 0x85
    ||| u == 0xA0
    ||| u == 0x1680
    ||| 0x2000 <= u <= 0x200A
    ||| u == 0x2028
    ||| u == 0x2029
    ||| u == 0x202F
    ||| u == 0x205F
    ||| u == 0x3000
}

/// The string that `str::to_lowercase` produces for `s`.
pub uninterp spec fn unicode_lowercase(s: Seq<char>) -> Seq<char>;

/// Whether `c` is whitespace, as `char::is_whitespace` decides it.
pub fn is_whitespace(c: char) -> (r: bool)
    ensures
        r == unicode_white_space(c),
{
    let u = c as u32;
    (0x9 <= u && u <= 0xD) || u == 0x20 || u == 0x85 || u == 0xA0 || u == 0x1680 || (0x2000 <= u
        && u <= 0x200A) || u == 0x2028 || u == 0x2029 || u == 0x202F || u == 0x205F || u == 0x3000
}

/// `str::to_lowercase`: the result is named, the Unicode case tables are not written out.
#[verifier::external_body]
pub(crate) fn to_lowercase(s: &str) -> (r: String)
    ensures
        r@ == unicode_lowercase(s@),
{
    s.to_lowercase()
}

/// The characters of `s`, in order (`str::chars` collected into a vector).
#[verifier::external_body]
pub(crate) fn str_chars(s: &str) -> (r: Vec<char>)
    ensures
        r@ == s@,
{
    s.chars().collect()
}

/// A string made of the characters of `chars`, in order (`String: FromIterator<&char>`).
#[verifier::external_body]
pub(crate) fn string_from_chars(chars: &Vec<char>) -> (r: String)
    ensures
        r@ == chars@,
{
    chars.iter().collect()
}

/// The views of a sequence of strings.
pub open spec fn views(v: Seq<String>) -> Seq<Seq<char>> {
    v.map_values(|s: String| s@)
}

/// Whether every character of `s` is whitespace (so `s.trim()` is empty).
pub open spec fn is_blank(s: Seq<char>) -> bool {
    forall|i: int| 0 <= i < s.len() ==> unicode_white_space(#[trigger] s[i])
}

/// `s` with leading whitespace removed.
pub open spec fn trim_start(s: Seq<char>) -> Seq<char>
    decreases s.len(),
{
    if s.len() > 0 && unicode_white_space(s[0]) {
        trim_start(s.drop_first())
    } else {
        s
    }
}

/// `s` with trailing whitespace removed.
pub open spec fn trim_end(s: Seq<char>) -> Seq<char>
    decreases s.len(),
{
    if s.len() > 0 && unicode_white_space(s.last()) {
        trim_end(s.drop_last())
    } else {
        s
    }
}

/// `s` with leading and trailing whitespace removed (`str::trim`).
pub open spec fn trim(s: Seq<char>) -> Seq<char> {
    trim_end(trim_start(s))
}

/// `s` with every leading and trailing `c` removed (`str::trim_matches` with a char).
pub open spec fn trim_char(s: Seq<char>, c: char) -> Seq<char> {
    trim_char_end(trim_char_start(s, c), c)
}

pub open spec fn trim_char_start(s: Seq<char>, c: char) -> Seq<char>
    decreases s.len(),
{
    if s.len() > 0 && s[0] == c {
        trim_char_start(s.drop_first(), c)
    } else {
        s
    }
}

pub open spec fn trim_char_end(s: Seq<char>, c: char) -> Seq<char>
    decreases s.len(),
{
    if s.len() > 0 && s.last() == c {
        trim_char_end(s.drop_last(), c)
    } else {
        s
    }
}

/// `i` is the position of the first `c` in `s`.
pub open spec fn is_first_index(s: Seq<char>, c: char, i: int) -> bool {
    &&& 0 <= i < s.len()
    &&& s[i] == c
    &&& forall|j: int| 0 <= j < i ==> s[j] != c
}

/// The position of the first `c` in `s` (meaningful when `s` contains `c`).
pub open spec fn first_index(s: Seq<char>, c: char) -> int {
    choose|i: int| is_first_index(s, c, i)
}

pub proof fn lemma_first_index(s: Seq<char>, c: char, i: int)
    requires
        is_first_index(s, c, i),
    ensures
        first_index(s, c) == i,
        s.contains(c),
{
    let k = first_index(s, c);
    assert(is_first_index(s, c, k));
    if k < i {
        assert(s[k] != c);
    }
    if i < k {
        assert(s[i] != c);
    }
}

/// The maximal runs of non-whitespace characters of `s`, with `cur` the run in progress.
pub open spec fn split_ws_from(s: Seq<char>, cur: Seq<char>) -> Seq<Seq<char>>
    decreases s.len(),
{
    if s.len() == 0 {
        if cur.len() > 0 {
            seq![cur]
        } else {
            seq![]
        }
    } else if unicode_white_space(s[0]) {
        (if cur.len() > 0 {
            seq![cur]
        } else {
            Seq::<Seq<char>>::empty()
        }) + split_ws_from(s.drop_first(), seq![])
    } else {
        split_ws_from(s.drop_first(), cur.push(s[0]))
    }
}

/// The words of `s` as `str::split_whitespace` yields them.
pub open spec fn split_ws(s: Seq<char>) -> Seq<Seq<char>> {
    split_ws_from(s, seq![])
}

/// Lexicographic order on character sequences (the order of `str` comparison).
pub open spec fn seq_le(a: Seq<char>, b: Seq<char>) -> bool
    decreases a.len(),
{
    if a.len() == 0 {
        true
    } else if b.len() == 0 {
        false
    } else if a[0] != b[0] {
        a[0] < b[0]
    } else {
        seq_le(a.drop_first(), b.drop_first())
    }
}

pub open spec fn seq_lt(a: Seq<char>, b: Seq<char>) -> bool {
    seq_le(a, b) && a != b
}

pub proof fn lemma_seq_le_antisym(a: Seq<char>, b: Seq<char>)
    requires
        seq_le(a, b),
        seq_le(b, a),
    ensures
        a == b,
    decreases a.len(),
{
    if a.len() > 0 && b.len() > 0 {
        lemma_seq_le_antisym(a.drop_first(), b.drop_first());
        assert(a =~= seq![a[0]] + a.drop_first());
        assert(b =~= seq![b[0]] + b.drop_first());
    }
}

pub proof fn lemma_seq_le_trans(a: Seq<char>, b: Seq<char>, c: Seq<char>)
    requires
        seq_le(a, b),
        seq_le(b, c),
    ensures
        seq_le(a, c),
    decreases a.len(),
{
    if a.len() > 0 && b.len() > 0 && c.len() > 0 && a[0] == b[0] && b[0] == c[0] {
        lemma_seq_le_trans(a.drop_first(), b.drop_first(), c.drop_first());
    }
}

pub proof fn lemma_seq_le_total(a: Seq<char>, b: Seq<char>)
    ensures
        seq_le(a, b) || seq_le(b, a),
    decreases a.len(),
{
    if a.len() > 0 && b.len() > 0 && a[0] == b[0] {
        lemma_seq_le_total(a.drop_first(), b.drop_first());
    }
}

pub proof fn lemma_seq_lt_trans(a: Seq<char>, b: Seq<char>, c: Seq<char>)
    requires
        seq_lt(a, b),
        seq_lt(b, c),
    ensures
        seq_lt(a, c),
{
    lemma_seq_le_trans(a, b, c);
    if a == c {
        lemma_seq_le_antisym(a, b);
    }
}


/// The views are in lexicographic order.
pub open spec fn sorted_views(v: Seq<Seq<char>>) -> bool {
    forall|a: int, b: int| 0 <= a < b < v.len() ==> seq_le(#[trigger] v[a], #[trigger] v[b])
}

/// The strings in lexicographic order (a stable insertion sort).
pub fn sort_strings(v: Vec<String>) -> (r: Vec<String>)
    ensures
        sorted_views(views(r@)),
        views(r@).to_multiset() == views(v@).to_multiset(),
        r@.len() == v@.len(),
{
    let mut out: Vec<String> = Vec::new();
    let mut i: usize = 0;
    assert(views(out@) =~= views(v@.take(0)));
    while i < v.len()
        invariant
            i <= v.len(),
            sorted_views(views(out@)),
            views(out@).to_multiset() == views(v@.take(i as int)).to_multiset(),
            out@.len() == i,
        decreases v.len() - i,
    {
        let x = v[i].clone();
        let mut p: usize = 0;
        while p < out.len() && !str_le(x.as_str(), out[p].as_str())
            invariant
                p <= out.len(),
                forall|j: int| 0 <= j < p ==> seq_le(#[trigger] views(out@)[j], x@) && views(out@)[j] != x@,
            decreases out.len() - p,
        {
            proof {
                lemma_seq_le_total(x@, views(out@)[p as int]);
            }
            p += 1;
        }
        let ghost before = views(out@);
        out.insert(p, x);
        proof {
            assert(views(out@) =~= before.insert(p as int, x@));
            assert(x@ == v@[i as int]@);
            assert(views(v@.take(i + 1)) =~= views(v@.take(i as int)).push(x@));
            vstd::seq_lib::to_multiset_insert(before, p as int, x@);
            vstd::seq_lib::to_multiset_build(views(v@.take(i as int)), x@);
            let w = views(out@);
            assert forall|a: int, b: int| 0 <= a < b < w.len() implies seq_le(#[trigger] w[a], #[trigger] w[b]) by {
                if b < p {
                    assert(w[a] == before[a] && w[b] == before[b]);
                } else if b == p {
                    assert(w[a] == before[a]);
                } else if a < p {
                    assert(w[a] == before[a] && w[b] == before[b - 1]);
                    assert(seq_le(before[a], x@));
                    assert(seq_le(x@, before[p as int]));
                    if b - 1 > p {
                        lemma_seq_le_trans(x@, before[p as int], before[b - 1]);
                    }
                    lemma_seq_le_trans(before[a], x@, before[b - 1]);
                } else if a == p {
                    assert(w[b] == before[b - 1]);
                    assert(seq_le(x@, before[p as int]));
                    if b - 1 > p {
                        lemma_seq_le_trans(x@, before[p as int], before[b - 1]);
                    }
                } else {
                    assert(w[a] == before[a - 1] && w[b] == before[b - 1]);
                }
            }
        }
        i += 1;
    }
    assert(v@.take(v.len() as int) =~= v@);
    out
}

/// Whether a string is the single character `c`.
pub fn is_single_char(s: &String, c: char) -> (r: bool)
    ensures
        r == (s@ == seq![c]),
{
    let t = s.as_str();
    if t.unicode_len() != 1 {
        return false;
    }
    let d = t.get_char(0);
    if d == c {
        assert(s@ =~= seq![c]);
        true
    } else {
        false
    }
}

/// Whether two strings are equal.
pub fn string_eq(a: &String, b: &String) -> (r: bool)
    ensures
        r == (a@ == b@),
{
    *a == *b
}

/// Whether two string slices hold the same characters.
pub fn str_eq(a: &str, b: &str) -> (r: bool)
    ensures
        r == (a@ == b@),
{
    let x = String::from_str(a);
    let y = String::from_str(b);
    x == y
}

/// Whether every character of `s` is whitespace.
pub fn blank(s: &str) -> (r: bool)
    ensures
        r == is_blank(s@),
{
    let v = str_chars(s);
    let mut i: usize = 0;
    while i < v.len()
        invariant
            v@ == s@,
            i <= v.len(),
            forall|j: int| 0 <= j < i ==> unicode_white_space(#[trigger] s@[j]),
        decreases v.len() - i,
    {
        if !is_whitespace(v[i]) {
            return false;
        }
        i += 1;
    }
    true
}

proof fn lemma_trim_start_step(s: Seq<char>, i: int)
    requires
        0 <= i < s.len(),
        unicode_white_space(s[i]),
    ensures
        trim_start(s.skip(i)) == trim_start(s.skip(i + 1)),
{
    assert(s.skip(i).drop_first() =~= s.skip(i + 1));
}

proof fn lemma_trim_end_step(s: Seq<char>, j: int)
    requires
        0 < j <= s.len(),
        unicode_white_space(s[j - 1]),
    ensures
        trim_end(s.take(j)) == trim_end(s.take(j - 1)),
{
    assert(s.take(j).drop_last() =~= s.take(j - 1));
}

/// The bounds `(a, b)` such that `trim(s) == s[a..b]`.
pub fn trim_bounds(v: &Vec<char>) -> (r: (usize, usize))
    ensures
        r.0 <= r.1 <= v.len(),
        trim(v@) == v@.subrange(r.0 as int, r.1 as int),
{
    let mut a: usize = 0;
    assert(v@.skip(0) =~= v@);
    while a < v.len() && is_whitespace(v[a])
        invariant
            a <= v.len(),
            trim_start(v@) == trim_start(v@.skip(a as int)),
        decreases v.len() - a,
    {
        proof {
            lemma_trim_start_step(v@, a as int);
        }
        a += 1;
    }
    let ghost t = v@.skip(a as int);
    assert(trim_start(v@) == t);
    let mut b: usize = v.len();
    assert(t.take(t.len() as int) =~= t);
    while b > a && is_whitespace(v[b - 1])
        invariant
            a <= b <= v.len(),
            t == v@.skip(a as int),
            trim_end(t) == trim_end(t.take(b - a)),
        decreases b,
    {
        proof {
            lemma_trim_end_step(t, (b - a) as int);
        }
        b -= 1;
    }
    assert(t.take(b - a) =~= v@.subrange(a as int, b as int));
    (a, b)
}

/// `s.trim()` as a new string.
pub fn trimmed(s: &str) -> (r: String)
    ensures
        r@ == trim(s@),
{
    let v = str_chars(s);
    let (a, b) = trim_bounds(&v);
    let w = slice_chars(&v, a, b);
    string_from_chars(&w)
}

/// The characters `v[a..b]`.
pub fn slice_chars(v: &Vec<char>, a: usize, b: usize) -> (r: Vec<char>)
    requires
        a <= b <= v.len(),
    ensures
        r@ == v@.subrange(a as int, b as int),
{
    let mut r: Vec<char> = Vec::new();
    let mut i = a;
    while i < b
        invariant
            a <= i <= b <= v.len(),
            r@ == v@.subrange(a as int, i as int),
        decreases b - i,
    {
        r.push(v[i]);
        i += 1;
        assert(r@ =~= v@.subrange(a as int, i as int));
    }
    r
}

/// The position of the first `c` at or after `start`, if any.
pub fn find_char(v: &Vec<char>, start: usize, c: char) -> (r: Option<usize>)
    requires
        start <= v.len(),
    ensures
        match r {
            Some(i) => start <= i < v.len() && is_first_index(v@.skip(start as int), c, i - start),
            None => !v@.skip(start as int).contains(c),
        },
{
    let mut i = start;
    while i < v.len()
        invariant
            start <= i <= v.len(),
            forall|j: int| start <= j < i ==> v@[j] != c,
        decreases v.len() - i,
    {
        if v[i] == c {
            assert(is_first_index(v@.skip(start as int), c, i - start));
            return Some(i);
        }
        i += 1;
    }
    assert forall|k: int| 0 <= k < v@.skip(start as int).len() implies v@.skip(start as int)[k] != c by {
        assert(v@.skip(start as int)[k] == v@[start + k]);
    }
    None
}

/// Lexicographic comparison: whether `a <= b`.
pub fn chars_le(a: &Vec<char>, b: &Vec<char>) -> (r: bool)
    ensures
        r == seq_le(a@, b@),
{
    let mut i: usize = 0;
    assert(a@.skip(0) =~= a@);
    assert(b@.skip(0) =~= b@);
    while i < a.len() && i < b.len() && a[i] == b[i]
        invariant
            i <= a.len(),
            i <= b.len(),
            seq_le(a@, b@) == seq_le(a@.skip(i as int), b@.skip(i as int)),
        decreases a.len() - i,
    {
        assert(a@.skip(i as int).drop_first() =~= a@.skip(i + 1));
        assert(b@.skip(i as int).drop_first() =~= b@.skip(i + 1));
        i += 1;
    }
    if i == a.len() {
        true
    } else if i == b.len() {
        false
    } else {
        a[i] < b[i]
    }
}

/// Whether `a <= b` in the lexicographic order of their characters.
pub fn str_le(a: &str, b: &str) -> (r: bool)
    ensures
        r == seq_le(a@, b@),
{
    let va = str_chars(a);
    let vb = str_chars(b);
    chars_le(&va, &vb)
}

proof fn lemma_split_ws_ws(s: Seq<char>, i: int, cur: Seq<char>)
    requires
        0 <= i < s.len(),
        unicode_white_space(s[i]),
    ensures
        split_ws_from(s.skip(i), cur) == (if cur.len() > 0 {
            seq![cur]
        } else {
            Seq::<Seq<char>>::empty()
        }) + split_ws_from(s.skip(i + 1), seq![]),
{
    assert(s.skip(i).drop_first() =~= s.skip(i + 1));
}

proof fn lemma_split_ws_word(s: Seq<char>, i: int, cur: Seq<char>)
    requires
        0 <= i < s.len(),
        !unicode_white_space(s[i]),
    ensures
        split_ws_from(s.skip(i), cur) == split_ws_from(s.skip(i + 1), cur.push(s[i])),
{
    assert(s.skip(i).drop_first() =~= s.skip(i + 1));
}

/// The words of `s` (`str::split_whitespace`), each as a string.
pub fn split_whitespace(s: &str) -> (r: Vec<String>)
    ensures
        views(r@) == split_ws(s@),
{
    let v = str_chars(s);
    let mut out: Vec<String> = Vec::new();
    let mut cur: Vec<char> = Vec::new();
    let mut i: usize = 0;
    assert(v@.skip(0) =~= v@);
    while i < v.len()
        invariant
            v@ == s@,
            i <= v.len(),
            views(out@) + split_ws_from(v@.skip(i as int), cur@) == split_ws(s@),
        decreases v.len() - i,
    {
        let c = v[i];
        if is_whitespace(c) {
            proof {
                lemma_split_ws_ws(v@, i as int, cur@);
            }
            if cur.len() > 0 {
                let w = string_from_chars(&cur);
                let ghost old_out = views(out@);
                out.push(w);
                assert(views(out@) =~= old_out.push(cur@));
                assert(old_out + (seq![cur@] + split_ws_from(v@.skip(i + 1), seq![])) =~= old_out.push(
                    cur@,
                ) + split_ws_from(v@.skip(i + 1), seq![]));
            } else {
                assert(Seq::<Seq<char>>::empty() + split_ws_from(v@.skip(i + 1), seq![])
                    =~= split_ws_from(v@.skip(i + 1), seq![]));
            }
            cur = Vec::new();
            assert(cur@ =~= Seq::<char>::empty());
        } else {
            proof {
                lemma_split_ws_word(v@, i as int, cur@);
            }
            cur.push(c);
        }
        i += 1;
    }
    assert(v@.skip(i as int) =~= Seq::<char>::empty());
    if cur.len() > 0 {
        let w = string_from_chars(&cur);
        let ghost old_out = views(out@);
        out.push(w);
        assert(views(out@) =~= old_out + seq![cur@]);
    } else {
        assert(views(out@) + Seq::<Seq<char>>::empty() =~= views(out@));
    }
    out
}

/// The decimal digit character for `d < 10`.
pub open spec fn digit_char(d: nat) -> char {
    ((d + 48) as u32) as char
}

/// The decimal representation of `n`, without leading zeros (`"0"` for zero).
pub open spec fn decimal(n: nat) -> Seq<char>
    decreases n,
{
    if n < 10 {
        seq![digit_char(n)]
    } else {
        decimal(n / 10).push(digit_char(n % 10))
    }
}

/// The decimal representation of `n`, zero-padded on the left to `width` digits.
pub open spec fn padded_decimal(n: nat, width: nat) -> Seq<char> {
    Seq::new((if width > decimal(n).len() { width - decimal(n).len() } else { 0 }) as nat, |i: int| '0')
        + decimal(n)
}

fn digit(d: u64) -> (c: char)
    requires
        d < 10,
    ensures
        c == digit_char(d as nat),
{
    let c: char = if d == 0 {
        '0'
    } else if d == 1 {
        '1'
    } else if d == 2 {
        '2'
    } else if d == 3 {
        '3'
    } else if d == 4 {
        '4'
    } else if d == 5 {
        '5'
    } else if d == 6 {
        '6'
    } else if d == 7 {
        '7'
    } else if d == 8 {
        '8'
    } else {
        '9'
    };
    c
}

/// The decimal digits of `n` as characters.
pub fn decimal_chars(n: u64) -> (r: Vec<char>)
    ensures
        r@ == decimal(n as nat),
    decreases n,
{
    if n < 10 {
        let mut r = Vec::new();
        r.push(digit(n));
        assert(r@ =~= seq![digit_char(n as nat)]);
        r
    } else {
        let mut r = decimal_chars(n / 10);
        r.push(digit(n % 10));
        r
    }
}

/// The decimal representation of `n` as a string (`u64`'s `Display`).
pub fn decimal_string(n: u64) -> (r: String)
    ensures
        r@ == decimal(n as nat),
{
    let v = decimal_chars(n);
    string_from_chars(&v)
}

/// Append the characters of `s` to `v`.
pub fn push_str(v: &mut Vec<char>, s: &str)
    ensures
        final(v)@ == old(v)@ + s@,
{
    let w = str_chars(s);
    let mut i: usize = 0;
    let ghost start = v@;
    while i < w.len()
        invariant
            i <= w.len(),
            w@ == s@,
            v@ == start + w@.take(i as int),
        decreases w.len() - i,
    {
        v.push(w[i]);
        i += 1;
        assert(v@ =~= start + w@.take(i as int));
    }
    assert(w@.take(w.len() as int) =~= w@);
}

} // verus!
