//! Character-level text operations used by the detection and build logic.
//!
//! Every operation works on the `char` sequence that is the view of a string,
//! and states its result as a spec function over `Seq<char>`.
use vstd::prelude::*;

verus! {

/// The Unicode `White_Space` property, which `str::trim` strips.
pub open spec fn is_white_space(c: char) -> bool {
    let u = c as u32;
    ||| 0x9 <= u <= 0xd
    ||| u == 0x20
    ||| u == 0x85
    ||| u == 0xa0
    ||| u == 0x1680
    ||| 0x2000 <= u <= 0x200a
    ||| u == 0x2028
    ||| u == 0x2029
    ||| u == 0x202f
    ||| u == 0x205f
    ||| u == 0x3000
}

/// `s` without its leading white space.
pub open spec fn trim_start(s: Seq<char>) -> Seq<char>
    decreases s.len(),
{
    if s.len() > 0 && is_white_space(s[0]) {
        trim_start(s.drop_first())
    } else {
        s
    }
}

/// `s` without its trailing white space.
pub open spec fn trim_end(s: Seq<char>) -> Seq<char>
    decreases s.len(),
{
    if s.len() > 0 && is_white_space(s.last()) {
        trim_end(s.drop_last())
    } else {
        s
    }
}

/// `s` without leading and trailing white space.
pub open spec fn trim(s: Seq<char>) -> Seq<char> {
    trim_end(trim_start(s))
}

/// `p` occurs in `s` starting at index `i`.
pub open spec fn matches_at(s: Seq<char>, p: Seq<char>, i: int) -> bool {
    0 <= i && i + p.len() <= s.len() && s.subrange(i, i + p.len()) == p
}

/// `s` begins with `p`.
pub open spec fn starts_with(s: Seq<char>, p: Seq<char>) -> bool {
    matches_at(s, p, 0)
}

/// `p` occurs somewhere in `s`.
pub open spec fn contains(s: Seq<char>, p: Seq<char>) -> bool {
    exists|i: int| matches_at(s, p, i)
}

/// The index of the first occurrence of `p` in `s`, if any.
pub open spec fn find(s: Seq<char>, p: Seq<char>) -> Option<int> {
    if contains(s, p) {
        Some(choose|i: int| matches_at(s, p, i) && forall|j: int| 0 <= j < i ==> !matches_at(s, p, j))
    } else {
        None
    }
}

/// `s` with every leading copy of `p` removed (`str::trim_start_matches`).
pub open spec fn strip_prefixes(s: Seq<char>, p: Seq<char>) -> Seq<char>
    decreases s.len(),
{
    if p.len() > 0 && starts_with(s, p) {
        strip_prefixes(s.skip(p.len() as int), p)
    } else {
        s
    }
}

/// `s` with every `from` replaced by `to`.
pub open spec fn replace_char(s: Seq<char>, from: char, to: char) -> Seq<char> {
    s.map_values(|c: char| if c == from { to } else { c })
}

/// The index of the first `c` in `s`; the length of `s` when there is none.
pub open spec fn first_index_of(s: Seq<char>, c: char) -> int
    decreases s.len(),
{
    if s.len() == 0 {
        0
    } else if s[0] == c {
        0
    } else {
        1 + first_index_of(s.drop_first(), c)
    }
}

pub proof fn lemma_first_index_bounds(s: Seq<char>, c: char)
    ensures
        0 <= first_index_of(s, c) <= s.len(),
        first_index_of(s, c) < s.len() ==> s[first_index_of(s, c)] == c,
        forall|j: int| 0 <= j < first_index_of(s, c) ==> s[j] != c,
    decreases s.len(),
{
    if s.len() > 0 && s[0] != c {
        lemma_first_index_bounds(s.drop_first(), c);
        let k = first_index_of(s.drop_first(), c);
        assert forall|j: int| 0 <= j < first_index_of(s, c) implies s[j] != c by {
            if j > 0 {
                assert(s[j] == s.drop_first()[j - 1]);
            }
        }
    }
}

/// The first `c` of `s` is at `k` when none comes before `k` and `s[k]` is `c`,
/// or `k` is the length and `c` does not occur.
pub proof fn lemma_first_index_is(s: Seq<char>, c: char, k: int)
    requires
        0 <= k <= s.len(),
        forall|j: int| 0 <= j < k ==> s[j] != c,
        k < s.len() ==> s[k] == c,
    ensures
        first_index_of(s, c) == k,
    decreases s.len(),
{
    if s.len() > 0 && k > 0 {
        assert forall|j: int| 0 <= j < k - 1 implies s.drop_first()[j] != c by {
            assert(s.drop_first()[j] == s[j + 1]);
        }
        lemma_first_index_is(s.drop_first(), c, k - 1);
    }
}

/// The parts of `s` between the separators `sep` (`str::split` with a `char`).
pub open spec fn split_on(s: Seq<char>, sep: char) -> Seq<Seq<char>>
    decreases s.len(),
{
    let k = first_index_of(s, sep);
    proof {
        lemma_first_index_bounds(s, sep);
    }
    if k < s.len() {
        seq![s.take(k)] + split_on(s.skip(k + 1), sep)
    } else {
        seq![s]
    }
}

/// The parts joined with `sep` between neighbours.
pub open spec fn join(parts: Seq<Seq<char>>, sep: Seq<char>) -> Seq<char>
    decreases parts.len(),
{
    if parts.len() == 0 {
        Seq::empty()
    } else if parts.len() == 1 {
        parts[0]
    } else {
        join(parts.drop_last(), sep) + sep + parts.last()
    }
}

/// A line as `str::lines` yields it: without a final carriage return.
pub open spec fn strip_cr(line: Seq<char>) -> Seq<char> {
    if line.len() > 0 && line.last() == '\r' {
        line.drop_last()
    } else {
        line
    }
}

/// The lines of `s` (`str::lines`): split at `'\n'`, each line that ends with
/// a line break without a final `'\r'`, and no empty line after a final line
/// break.
pub open spec fn lines(s: Seq<char>) -> Seq<Seq<char>>
    decreases s.len(),
{
    let k = first_index_of(s, '\n');
    proof {
        lemma_first_index_bounds(s, '\n');
    }
    if s.len() == 0 {
        Seq::empty()
    } else if k < s.len() {
        seq![strip_cr(s.take(k))] + lines(s.skip(k + 1))
    } else {
        seq![s]
    }
}

/// Strict lexicographic order on character sequences, by code point: the
/// order of `String` (UTF-8 keeps the order of code points).
pub open spec fn text_lt(a: Seq<char>, b: Seq<char>) -> bool
    decreases a.len(),
{
    if a.len() == 0 {
        b.len() > 0
    } else if b.len() == 0 {
        false
    } else if a[0] != b[0] {
        (a[0] as u32) < (b[0] as u32)
    } else {
        text_lt(a.drop_first(), b.drop_first())
    }
}

/// What `str::to_lowercase` returns for a string: its Unicode lowercase
/// mapping, which takes the Unicode tables to state.
pub uninterp spec fn lowercase_of(s: Seq<char>) -> Seq<char>;

/// Lowercase of ASCII text, character by character.
pub open spec fn ascii_lowercase(s: Seq<char>) -> Seq<char> {
    s.map_values(
        |c: char|
            if 65 <= (c as u32) <= 90 {
                ((c as u32) + 32) as char
            } else {
                c
            },
    )
}

pub open spec fn is_ascii_text(s: Seq<char>) -> bool {
    forall|i: int| 0 <= i < s.len() ==> (s[i] as u32) < 128
}

/// Calls `str::to_lowercase`. The contract names the result by `lowercase_of`;
/// of its value it states only that ASCII text maps each of `A`..`Z` to
/// `a`..`z` and keeps every other character, as the Unicode case tables do.
#[verifier::external_body]
pub(crate) fn to_lowercase(s: &str) -> (r: String)
    ensures
        r@ == lowercase_of(s@),
        is_ascii_text(s@) ==> r@ == ascii_lowercase(s@),
{
    s.to_lowercase()
}

/// Builds a `String` from its characters (`FromIterator<&char>` for `String`),
/// which appends them in order.
#[verifier::external_body]
pub(crate) fn string_from_chars(v: &[char]) -> (r: String)
    ensures
        r@ == v@,
{
    v.iter().collect()
}

/// The characters of `s`, in order.
pub fn chars_of(s: &str) -> (v: Vec<char>)
    ensures
        v@ == s@,
{
    let mut v: Vec<char> = Vec::new();
    for c in it: s.chars()
        invariant
            v@ == it.seq().take(it.index() as int),
    {
        v.push(c);
    }
    assert(v@ =~= s@);
    v
}

/// Copies `v[from..to]`.
pub fn sub_chars(v: &[char], from: usize, to: usize) -> (r: Vec<char>)
    requires
        from <= to <= v@.len(),
    ensures
        r@ == v@.subrange(from as int, to as int),
{
    let mut r: Vec<char> = Vec::new();
    let mut i = from;
    while i < to
        invariant
            from <= i <= to <= v@.len(),
            r@ == v@.subrange(from as int, i as int),
        decreases to - i,
    {
        r.push(v[i]);
        i += 1;
        assert(r@ =~= v@.subrange(from as int, i as int));
    }
    r
}

pub fn is_white_space_char(c: char) -> (b: bool)
    ensures
        b == is_white_space(c),
{
    let u = c as u32;
    (0x9 <= u && u <= 0xd) || u == 0x20 || u == 0x85 || u == 0xa0 || u == 0x1680 || (0x2000 <= u
        && u <= 0x200a) || u == 0x2028 || u == 0x2029 || u == 0x202f || u == 0x205f || u == 0x3000
}

proof fn lemma_trim_start_skip(s: Seq<char>, i: int)
    requires
        0 <= i <= s.len(),
        forall|j: int| 0 <= j < i ==> is_white_space(#[trigger] s[j]),
    ensures
        trim_start(s) == trim_start(s.skip(i)),
    decreases i,
{
    if i > 0 {
        assert(s.drop_first().skip(i - 1) =~= s.skip(i));
        lemma_trim_start_skip(s.drop_first(), i - 1);
    } else {
        assert(s.skip(0) =~= s);
    }
}

proof fn lemma_trim_end_take(s: Seq<char>, k: int)
    requires
        0 <= k <= s.len(),
        forall|j: int| k <= j < s.len() ==> is_white_space(#[trigger] s[j]),
    ensures
        trim_end(s) == trim_end(s.take(k)),
    decreases s.len() - k,
{
    if k < s.len() {
        assert(s.drop_last().take(k) =~= s.take(k));
        lemma_trim_end_take(s.drop_last(), k);
    } else {
        assert(s.take(k) =~= s);
    }
}

/// The bounds `(a, b)` of the trimmed part of `v`.
pub fn trim_bounds(v: &[char]) -> (r: (usize, usize))
    ensures
        r.0 <= r.1 <= v@.len(),
        v@.subrange(r.0 as int, r.1 as int) == trim(v@),
{
    let n = v.len();
    let mut a: usize = 0;
    while a < n && is_white_space_char(v[a])
        invariant
            a <= n == v@.len(),
            forall|j: int| 0 <= j < a ==> is_white_space(#[trigger] v@[j]),
        decreases n - a,
    {
        a += 1;
    }
    proof {
        lemma_trim_start_skip(v@, a as int);
    }
    let ghost t = v@.skip(a as int);
    assert(trim_start(t) == t);
    let mut b: usize = n;
    while b > a && is_white_space_char(v[b - 1])
        invariant
            a <= b <= n == v@.len(),
            forall|j: int| b <= j < n ==> is_white_space(#[trigger] v@[j]),
        decreases b - a,
    {
        b -= 1;
    }
    proof {
        assert forall|j: int| b - a <= j < t.len() implies is_white_space(#[trigger] t[j]) by {
            assert(t[j] == v@[j + a]);
        }
        lemma_trim_end_take(t, b - a);
        assert(t.take(b - a) =~= v@.subrange(a as int, b as int));
    }
    (a, b)
}

/// `v` without leading and trailing white space.
pub fn trim_chars(v: &[char]) -> (r: Vec<char>)
    ensures
        r@ == trim(v@),
{
    let (a, b) = trim_bounds(v);
    sub_chars(v, a, b)
}

/// `s` without leading and trailing white space (`str::trim`).
pub fn trim_str(s: &str) -> (r: String)
    ensures
        r@ == trim(s@),
{
    let v = chars_of(s);
    let t = trim_chars(v.as_slice());
    string_from_chars(t.as_slice())
}

/// Whether the two character sequences are equal.
pub fn chars_eq(a: &[char], b: &[char]) -> (r: bool)
    ensures
        r == (a@ == b@),
{
    if a.len() != b.len() {
        return false;
    }
    let mut i: usize = 0;
    while i < a.len()
        invariant
            i <= a@.len() == b@.len(),
            forall|j: int| 0 <= j < i ==> a@[j] == b@[j],
        decreases a@.len() - i,
    {
        if a[i] != b[i] {
            return false;
        }
        i += 1;
    }
    assert(a@ =~= b@);
    true
}

/// Whether the two strings hold the same text.
pub fn str_eq(a: &str, b: &str) -> (r: bool)
    ensures
        r == (a@ == b@),
{
    let va = chars_of(a);
    let vb = chars_of(b);
    chars_eq(va.as_slice(), vb.as_slice())
}

/// Whether `p` occurs in `s` at index `i`.
pub fn matches_at_exec(s: &[char], p: &[char], i: usize) -> (r: bool)
    ensures
        r == matches_at(s@, p@, i as int),
{
    let n = s.len();
    if i > n || p.len() > n - i {
        return false;
    }
    let mut k: usize = 0;
    while k < p.len()
        invariant
            n == s@.len(),
            i + p@.len() <= s@.len(),
            k <= p@.len(),
            forall|j: int| 0 <= j < k ==> s@[i + j] == p@[j],
        decreases p@.len() - k,
    {
        if s[i + k] != p[k] {
            assert(s@.subrange(i as int, i + p@.len())[k as int] != p@[k as int]);
            return false;
        }
        k += 1;
    }
    assert(s@.subrange(i as int, i + p@.len()) =~= p@);
    true
}

/// Whether `s` begins with `p`.
pub fn starts_with_exec(s: &[char], p: &[char]) -> (r: bool)
    ensures
        r == starts_with(s@, p@),
{
    matches_at_exec(s, p, 0)
}

/// The index of the first occurrence of `p` in `s`.
pub fn find_exec(s: &[char], p: &[char]) -> (r: Option<usize>)
    ensures
        match r {
            Some(i) => {
                &&& find(s@, p@) == Some(i as int)
                &&& matches_at(s@, p@, i as int)
                &&& forall|j: int| 0 <= j < i ==> !matches_at(s@, p@, j)
            },
            None => find(s@, p@) is None,
        },
{
    let n = s.len();
    let mut i: usize = 0;
    loop
        invariant
            n == s@.len(),
            i <= n,
            forall|j: int| 0 <= j < i ==> !matches_at(s@, p@, j),
        decreases n - i,
    {
        if matches_at_exec(s, p, i) {
            let ghost c = choose|k: int|
                matches_at(s@, p@, k) && forall|j: int| 0 <= j < k ==> !matches_at(s@, p@, j);
            assert(matches_at(s@, p@, i as int));
            assert(c == i) by {
                if c < i {
                    assert(!matches_at(s@, p@, c));
                } else if c > i {
                    assert(!matches_at(s@, p@, i as int));
                }
            }
            return Some(i);
        }
        if i == n {
            assert forall|j: int| !matches_at(s@, p@, j) by {
                if 0 <= j <= i {
                } else if j > i {
                    assert(j + p@.len() > s@.len());
                }
            }
            return None;
        }
        i += 1;
    }
}

/// Whether `p` occurs in `s`.
pub fn contains_exec(s: &[char], p: &[char]) -> (r: bool)
    ensures
        r == contains(s@, p@),
{
    match find_exec(s, p) {
        Some(i) => {
            proof {
                assert(contains(s@, p@));
            }
            true
        },
        None => false,
    }
}

/// `s` with every leading copy of `p` removed.
pub fn strip_prefixes_exec(s: &[char], p: &[char]) -> (r: Vec<char>)
    ensures
        r@ == strip_prefixes(s@, p@),
{
    let n = s.len();
    if p.len() == 0 {
        return sub_chars(s, 0, n);
    }
    let mut i: usize = 0;
    assert(s@.skip(0) =~= s@);
    while p.len() <= n - i && matches_at_exec(s, p, i)
        invariant
            i <= n == s@.len(),
            p@.len() > 0,
            strip_prefixes(s@, p@) == strip_prefixes(s@.skip(i as int), p@),
        decreases n - i,
    {
        proof {
            let t = s@.skip(i as int);
            assert(t.subrange(0, p@.len() as int) =~= s@.subrange(i as int, i + p@.len()));
            assert(t.skip(p@.len() as int) =~= s@.skip(i + p@.len()));
        }
        i += p.len();
    }
    proof {
        let t = s@.skip(i as int);
        if starts_with(t, p@) {
            assert(t.subrange(0, p@.len() as int) =~= s@.subrange(i as int, i + p@.len()));
        }
    }
    sub_chars(s, i, n)
}

/// `s` with every `from` replaced by `to`.
pub fn replace_char_exec(s: &[char], from: char, to: char) -> (r: Vec<char>)
    ensures
        r@ == replace_char(s@, from, to),
{
    let mut r: Vec<char> = Vec::new();
    let mut i: usize = 0;
    while i < s.len()
        invariant
            i <= s@.len(),
            r@ == replace_char(s@.take(i as int), from, to),
        decreases s@.len() - i,
    {
        let c = s[i];
        if c == from {
            r.push(to);
        } else {
            r.push(c);
        }
        i += 1;
        assert(r@ =~= replace_char(s@.take(i as int), from, to));
    }
    assert(s@.take(i as int) =~= s@);
    r
}

/// Whether `c` occurs in `s`.
pub fn has_char(s: &[char], c: char) -> (r: bool)
    ensures
        r == s@.contains(c),
{
    let mut i: usize = 0;
    while i < s.len()
        invariant
            i <= s@.len(),
            forall|j: int| 0 <= j < i ==> s@[j] != c,
        decreases s@.len() - i,
    {
        if s[i] == c {
            return true;
        }
        i += 1;
    }
    false
}

/// Whether `a` sorts strictly before `b`.
pub fn text_lt_exec(a: &[char], b: &[char]) -> (r: bool)
    ensures
        r == text_lt(a@, b@),
{
    let mut i: usize = 0;
    assert(a@.skip(0) =~= a@);
    assert(b@.skip(0) =~= b@);
    while i < a.len() && i < b.len() && a[i] == b[i]
        invariant
            i <= a@.len(),
            i <= b@.len(),
            text_lt(a@, b@) == text_lt(a@.skip(i as int), b@.skip(i as int)),
        decreases a@.len() - i,
    {
        proof {
            assert(a@.skip(i as int).drop_first() =~= a@.skip(i + 1));
            assert(b@.skip(i as int).drop_first() =~= b@.skip(i + 1));
        }
        i += 1;
    }
    if i == a.len() {
        i < b.len()
    } else if i == b.len() {
        false
    } else {
        (a[i] as u32) < (b[i] as u32)
    }
}

/// The strings joined with `sep` between neighbours (`[String]::join`).
pub fn join_strings(parts: &[String], sep: &str) -> (r: String)
    ensures
        r@ == join(parts@.map_values(|p: String| p@), sep@),
{
    let ghost views = parts@.map_values(|p: String| p@);
    let mut r = String::new();
    let mut i: usize = 0;
    while i < parts.len()
        invariant
            i <= parts@.len(),
            views == parts@.map_values(|p: String| p@),
            r@ == join(views.take(i as int), sep@),
        decreases parts@.len() - i,
    {
        proof {
            assert(views.take(i + 1).drop_last() =~= views.take(i as int));
        }
        if i > 0 {
            r.append(sep);
        } else {
            assert(views.take(0) =~= Seq::<Seq<char>>::empty());
            assert(r@ =~= Seq::<char>::empty());
        }
        r.append(parts[i].as_str());
        i += 1;
        proof {
            if i == 1 {
                assert(r@ =~= join(views.take(1), sep@));
            }
        }
    }
    assert(views.take(i as int) =~= views);
    r
}

/// The views of a sequence of character vectors.
pub open spec fn char_views(v: Seq<Vec<char>>) -> Seq<Seq<char>> {
    v.map_values(|l: Vec<char>| l@)
}

/// `v` without a final carriage return.
pub fn strip_cr_exec(v: &[char]) -> (r: Vec<char>)
    ensures
        r@ == strip_cr(v@),
{
    let n = v.len();
    if n > 0 && v[n - 1] == '\r' {
        let r = sub_chars(v, 0, n - 1);
        assert(r@ =~= v@.drop_last());
        r
    } else {
        let r = sub_chars(v, 0, n);
        assert(r@ =~= v@);
        r
    }
}

/// The parts of `v` between the separators `sep`.
pub fn split_on_exec(v: &[char], sep: char) -> (r: Vec<Vec<char>>)
    ensures
        char_views(r@) == split_on(v@, sep),
{
    let n = v.len();
    let mut r: Vec<Vec<char>> = Vec::new();
    let mut start: usize = 0;
    let mut i: usize = 0;
    assert(v@.skip(0) =~= v@);
    while i < n
        invariant
            n == v@.len(),
            start <= i <= n,
            forall|j: int| start <= j < i ==> v@[j] != sep,
            char_views(r@) + split_on(v@.skip(start as int), sep) == split_on(v@, sep),
        decreases n - i,
    {
        if v[i] == sep {
            let part = sub_chars(v, start, i);
            proof {
                let t = v@.skip(start as int);
                lemma_first_index_is(t, sep, i - start);
                assert(t.take(i - start) =~= part@);
                assert(t.skip(i - start + 1) =~= v@.skip(i + 1));
                assert(char_views(r@.push(part)) =~= char_views(r@).push(part@));
                assert(split_on(t, sep) == seq![part@] + split_on(v@.skip(i + 1), sep));
                assert(char_views(r@).push(part@) + split_on(v@.skip(i + 1), sep) =~= char_views(
                    r@,
                ) + (seq![part@] + split_on(v@.skip(i + 1), sep)));
            }
            r.push(part);
            start = i + 1;
        }
        i += 1;
    }
    let last = sub_chars(v, start, n);
    proof {
        let t = v@.skip(start as int);
        lemma_first_index_is(t, sep, n - start);
        assert(t =~= last@);
        assert(char_views(r@.push(last)) =~= char_views(r@).push(last@));
        assert(char_views(r@).push(last@) =~= char_views(r@) + seq![last@]);
    }
    r.push(last);
    r
}

/// The lines of `v` (`str::lines`).
pub fn lines_exec(v: &[char]) -> (r: Vec<Vec<char>>)
    ensures
        char_views(r@) == lines(v@),
{
    let n = v.len();
    let mut r: Vec<Vec<char>> = Vec::new();
    let mut start: usize = 0;
    let mut i: usize = 0;
    assert(v@.skip(0) =~= v@);
    while i < n
        invariant
            n == v@.len(),
            start <= i <= n,
            forall|j: int| start <= j < i ==> v@[j] != '\n',
            char_views(r@) + lines(v@.skip(start as int)) == lines(v@),
        decreases n - i,
    {
        if v[i] == '\n' {
            let raw = sub_chars(v, start, i);
            let line = strip_cr_exec(raw.as_slice());
            proof {
                let t = v@.skip(start as int);
                lemma_first_index_is(t, '\n', i - start);
                assert(t.take(i - start) =~= raw@);
                assert(t.skip(i - start + 1) =~= v@.skip(i + 1));
                assert(char_views(r@.push(line)) =~= char_views(r@).push(line@));
                assert(lines(t) == seq![line@] + lines(v@.skip(i + 1)));
                assert(char_views(r@).push(line@) + lines(v@.skip(i + 1)) =~= char_views(r@) + (
                seq![line@] + lines(v@.skip(i + 1))));
            }
            r.push(line);
            start = i + 1;
        }
        i += 1;
    }
    if start < n {
        let line = sub_chars(v, start, n);
        proof {
            let t = v@.skip(start as int);
            lemma_first_index_is(t, '\n', n - start);
            assert(t =~= line@);
            assert(char_views(r@.push(line)) =~= char_views(r@).push(line@));
            assert(char_views(r@).push(line@) =~= char_views(r@) + seq![line@]);
        }
        r.push(line);
    } else {
        proof {
            assert(v@.skip(start as int) =~= Seq::<char>::empty());
            assert(char_views(r@) + Seq::<Seq<char>>::empty() =~= char_views(r@));
        }
    }
    r
}

pub proof fn lemma_text_lt_irreflexive(a: Seq<char>)
    ensures
        !text_lt(a, a),
    decreases a.len(),
{
    if a.len() > 0 {
        lemma_text_lt_irreflexive(a.drop_first());
    }
}

pub proof fn lemma_text_lt_transitive(a: Seq<char>, b: Seq<char>, c: Seq<char>)
    requires
        text_lt(a, b),
        text_lt(b, c),
    ensures
        text_lt(a, c),
    decreases a.len(),
{
    if a.len() > 0 && b.len() > 0 && c.len() > 0 && a[0] == b[0] && b[0] == c[0] {
        lemma_text_lt_transitive(a.drop_first(), b.drop_first(), c.drop_first());
    }
}

pub proof fn lemma_text_lt_total(a: Seq<char>, b: Seq<char>)
    requires
        a != b,
    ensures
        text_lt(a, b) || text_lt(b, a),
    decreases a.len(),
{
    if a.len() > 0 && b.len() > 0 && a[0] == b[0] {
        if a.drop_first() == b.drop_first() {
            assert(a =~= seq![a[0]] + a.drop_first());
            assert(b =~= seq![b[0]] + b.drop_first());
        }
        lemma_text_lt_total(a.drop_first(), b.drop_first());
    } else if a.len() > 0 && b.len() > 0 {
        vstd::utf8::char_u32_cast(a[0], a[0] as u32);
        vstd::utf8::char_u32_cast(b[0], b[0] as u32);
        assert((a[0] as u32) != (b[0] as u32));
    } else if a.len() == 0 && b.len() == 0 {
        assert(a =~= b);
    }
}

pub proof fn lemma_text_lt_asymmetric(a: Seq<char>, b: Seq<char>)
    requires
        text_lt(a, b),
    ensures
        !text_lt(b, a),
{
    if text_lt(b, a) {
        lemma_text_lt_transitive(a, b, a);
        lemma_text_lt_irreflexive(a);
    }
}

} // verus!
