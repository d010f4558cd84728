//! Character-level text operations on captured output: searching for a
//! substring, exact comparison, trimming white space and splitting into lines.
use vstd::prelude::*;

verus! {

// ---------------------------------------------------------------------------
// Specifications
// ---------------------------------------------------------------------------

/// `needle` occurs in `hay` starting at position `i`.
pub open spec fn occurs_at(hay: Seq<char>, needle: Seq<char>, i: int) -> bool {
    &&& 0 <= i
    &&& i + needle.len() <= hay.len()
    &&& hay.subrange(i, i + needle.len()) == needle
}

/// `needle` occurs somewhere in `hay` as a contiguous block of characters.
pub open spec fn contains_seq(hay: Seq<char>, needle: Seq<char>) -> bool {
    exists|i: int| #[trigger] occurs_at(hay, needle, i)
}

/// Unicode `White_Space`: the characters that `char::is_whitespace` accepts.
pub open spec fn is_white_space(c: char) -> bool {
    let u = c as u32;
    ||| 0x09 <= u <= 0x0d
    ||| u == 0x20
    ||| u == 0x85
    ||| u == 0xa0
    ||| u == 0x1680
    ||| 0x2000 <= u <= 0x200a
    ||| u == 0x2028
    ||| u == 0x2029
    ||| u == 0x202f
    ||| u == 0x205f
    ||| u == 0x3000
}

/// `s` without its leading white space.
pub open spec fn trim_start(s: Seq<char>) -> Seq<char>
    decreases s.len(),
{
    if s.len() > 0 && is_white_space(s[0]) {
        trim_start(s.drop_first())
    } else {
        s
    }
}

/// `s` without its trailing white space.
pub open spec fn trim_end(s: Seq<char>) -> Seq<char>
    decreases s.len(),
{
    if s.len() > 0 && is_white_space(s.last()) {
        trim_end(s.drop_last())
    } else {
        s
    }
}

/// `s` without leading and trailing white space (what `str::trim` gives).
pub open spec fn trim(s: Seq<char>) -> Seq<char> {
    trim_end(trim_start(s))
}

/// The position of the first `'\n'` in `s` at or after `i`, or `s.len()` if there is none.
pub open spec fn next_newline(s: Seq<char>, i: int) -> int
    decreases s.len() - i,
{
    if i >= s.len() {
        s.len() as int
    } else if s[i] == '\n' {
        i
    } else {
        next_newline(s, i + 1)
    }
}

/// The first line break at or after `i` lies between `i` and the end of `s`.
pub proof fn lemma_next_newline_bounds(s: Seq<char>, i: int)
    requires
        0 <= i <= s.len(),
    ensures
        i <= next_newline(s, i) <= s.len(),
        next_newline(s, i) < s.len() ==> s[next_newline(s, i)] == '\n',
        forall|j: int| i <= j < next_newline(s, i) ==> s[j] != '\n',
    decreases s.len() - i,
{
    if i < s.len() && s[i] != '\n' {
        lemma_next_newline_bounds(s, i + 1);
    }
}

/// A line that was ended by `'\n'` loses a `'\r'` right before that `'\n'`.
pub open spec fn strip_cr(line: Seq<char>) -> Seq<char> {
    if line.len() > 0 && line.last() == '\r' {
        line.drop_last()
    } else {
        line
    }
}

/// The lines of `s` from position `start` on, split as `str::lines` splits them.
pub open spec fn lines_from(s: Seq<char>, start: int) -> Seq<Seq<char>>
    decreases s.len() - start,
{
    if start < 0 || start >= s.len() {
        Seq::empty()
    } else {
        proof {
            lemma_next_newline_bounds(s, start);
        }
        let e = next_newline(s, start);
        let segment = s.subrange(start, e);
        let line = if e < s.len() {
            strip_cr(segment)
        } else {
            segment
        };
        if e < s.len() {
            seq![line] + lines_from(s, e + 1)
        } else {
            seq![line]
        }
    }
}

/// The lines of `s`: split at `'\n'`, a `'\r'` before a `'\n'` dropped, and no
/// empty line after a final `'\n'`.
pub open spec fn lines(s: Seq<char>) -> Seq<Seq<char>> {
    lines_from(s, 0)
}

/// How many of the lines `ls` are not empty.
pub open spec fn count_non_empty(ls: Seq<Seq<char>>) -> nat
    decreases ls.len(),
{
    if ls.len() == 0 {
        0
    } else {
        count_non_empty(ls.drop_last()) + if ls.last().len() > 0 {
            1nat
        } else {
            0nat
        }
    }
}

// ---------------------------------------------------------------------------
// Executable functions
// ---------------------------------------------------------------------------

/// The characters of a string slice, collected into a vector.
pub fn chars_of(s: &str) -> (v: Vec<char>)
    ensures
        v@ == s@,
{
    let mut v: Vec<char> = Vec::new();
    for c in it: s.chars()
        invariant
            v@ == it.seq().take(it.index() as int),
            it.seq() == s@,
    {
        v.push(c);
    }
    v
}

/// Whether `needle` occurs in `hay` at position `i`.
fn occurs_at_index(hay: &Vec<char>, needle: &Vec<char>, i: usize) -> (r: bool)
    requires
        i + needle@.len() <= hay@.len(),
    ensures
        r == occurs_at(hay@, needle@, i as int),
{
    let n = needle.len();
    let h = hay.len();
    let mut j: usize = 0;
    while j < n
        invariant
            j <= n,
            n == needle@.len(),
            h == hay@.len(),
            i + n <= hay@.len(),
            forall|k: int| 0 <= k < j ==> hay@[i + k] == needle@[k],
        decreases n - j,
    {
        if hay[i + j] != needle[j] {
            assert(hay@.subrange(i as int, i + n)[j as int] != needle@[j as int]);
            return false;
        }
        j = j + 1;
    }
    assert(hay@.subrange(i as int, i + n) =~= needle@);
    true
}

/// Whether `needle` occurs in `hay` as a contiguous block of characters.
pub fn contains_chars(hay: &Vec<char>, needle: &Vec<char>) -> (r: bool)
    ensures
        r == contains_seq(hay@, needle@),
{
    let h = hay.len();
    let n = needle.len();
    if n > h {
        assert forall|i: int| !occurs_at(hay@, needle@, i) by {}
        return false;
    }
    let mut i: usize = 0;
    loop
        invariant
            i <= h - n,
            h == hay@.len(),
            n == needle@.len(),
            n <= h,
            forall|k: int| 0 <= k < i ==> !#[trigger] occurs_at(hay@, needle@, k),
        decreases h - n - i,
    {
        if occurs_at_index(hay, needle, i) {
            return true;
        }
        if i == h - n {
            assert forall|k: int| !#[trigger] occurs_at(hay@, needle@, k) by {}
            return false;
        }
        i = i + 1;
    }
}

/// Whether `needle` occurs in `hay` (what `str::contains` answers for a string pattern).
pub fn str_contains(hay: &str, needle: &str) -> (r: bool)
    ensures
        r == contains_seq(hay@, needle@),
{
    let h = chars_of(hay);
    let n = chars_of(needle);
    contains_chars(&h, &n)
}

/// Whether two strings hold the same characters.
pub fn str_equals(a: &str, b: &str) -> (r: bool)
    ensures
        r == (a@ == b@),
{
    let x = chars_of(a);
    let y = chars_of(b);
    if x.len() != y.len() {
        return false;
    }
    let n = x.len();
    let mut i: usize = 0;
    while i < n
        invariant
            i <= n,
            n == x@.len(),
            n == y@.len(),
            x@ == a@,
            y@ == b@,
            forall|k: int| 0 <= k < i ==> x@[k] == y@[k],
        decreases n - i,
    {
        if x[i] != y[i] {
            assert(x@[i as int] != y@[i as int]);
            return false;
        }
        i = i + 1;
    }
    assert(x@ =~= y@);
    true
}

/// Whether `c` is white space in the sense of Unicode `White_Space`.
pub fn is_whitespace(c: char) -> (r: bool)
    ensures
        r == is_white_space(c),
{
    let u = c as u32;
    (0x09 <= u && u <= 0x0d) || u == 0x20 || u == 0x85 || u == 0xa0 || u == 0x1680 || (0x2000
        <= u && u <= 0x200a) || u == 0x2028 || u == 0x2029 || u == 0x202f || u == 0x205f || u
        == 0x3000
}

/// The characters of `s` without leading and trailing white space.
pub fn trim_chars(s: &Vec<char>) -> (r: Vec<char>)
    ensures
        r@ == trim(s@),
{
    let len = s.len();
    let mut i: usize = 0;
    assert(s@.subrange(0, len as int) =~= s@);
    while i < len && is_whitespace(s[i])
        invariant
            i <= len,
            len == s@.len(),
            trim_start(s@) == trim_start(s@.subrange(i as int, len as int)),
        decreases len - i,
    {
        let ghost rest = s@.subrange(i as int, len as int);
        assert(rest.drop_first() =~= s@.subrange(i + 1, len as int));
        i = i + 1;
    }
    let ghost front = s@.subrange(i as int, len as int);
    assert(trim_start(front) == front);
    let mut j: usize = len;
    while j > i && is_whitespace(s[j - 1])
        invariant
            i <= j <= len,
            len == s@.len(),
            front == s@.subrange(i as int, len as int),
            trim_end(front) == trim_end(s@.subrange(i as int, j as int)),
        decreases j,
    {
        let ghost part = s@.subrange(i as int, j as int);
        assert(part.drop_last() =~= s@.subrange(i as int, j - 1));
        j = j - 1;
    }
    let ghost kept = s@.subrange(i as int, j as int);
    assert(trim_end(kept) == kept);
    let mut r: Vec<char> = Vec::new();
    let mut k: usize = i;
    while k < j
        invariant
            i <= k <= j,
            j <= len,
            len == s@.len(),
            r@ == s@.subrange(i as int, k as int),
        decreases j - k,
    {
        r.push(s[k]);
        assert(r@ =~= s@.subrange(i as int, k + 1));
        k = k + 1;
    }
    r
}

/// The position of the first `'\n'` in `s` at or after `start`, or `s.len()`.
fn find_newline(s: &Vec<char>, start: usize) -> (e: usize)
    requires
        start <= s@.len(),
    ensures
        e == next_newline(s@, start as int),
        start <= e <= s@.len(),
{
    let len = s.len();
    let mut i = start;
    while i < len && s[i] != '\n'
        invariant
            start <= i <= len,
            len == s@.len(),
            next_newline(s@, start as int) == next_newline(s@, i as int),
        decreases len - i,
    {
        i = i + 1;
    }
    i
}

/// The character bounds `(start, end)` of each line of `s`, in order.
pub fn line_bounds(s: &Vec<char>) -> (r: Vec<(usize, usize)>)
    ensures
        r@.len() == lines(s@).len(),
        forall|k: int|
            0 <= k < r@.len() ==> {
                &&& (#[trigger] r@[k]).0 <= r@[k].1 <= s@.len()
                &&& s@.subrange(r@[k].0 as int, r@[k].1 as int) == lines(s@)[k]
            },
{
    let len = s.len();
    let mut r: Vec<(usize, usize)> = Vec::new();
    let mut start: usize = 0;
    while start < len
        invariant
            start <= len,
            len == s@.len(),
            lines(s@) == r@.map_values(|b: (usize, usize)| s@.subrange(b.0 as int, b.1 as int))
                + lines_from(s@, start as int),
            forall|k: int|
                0 <= k < r@.len() ==> (#[trigger] r@[k]).0 <= r@[k].1 <= s@.len(),
        decreases len - start,
    {
        let e = find_newline(s, start);
        let ghost before = r@;
        if e < len {
            let mut end = e;
            if e > start && s[e - 1] == '\r' {
                end = e - 1;
            }
            proof {
                let seg = s@.subrange(start as int, e as int);
                if e > start && s@[e - 1] == '\r' {
                    assert(seg.drop_last() =~= s@.subrange(start as int, end as int));
                }
                assert(strip_cr(seg) == s@.subrange(start as int, end as int));
            }
            r.push((start, end));
            assert(r@.map_values(|b: (usize, usize)| s@.subrange(b.0 as int, b.1 as int))
                =~= before.map_values(|b: (usize, usize)| s@.subrange(b.0 as int, b.1 as int))
                + seq![s@.subrange(start as int, end as int)]);
            start = e + 1;
        } else {
            r.push((start, e));
            assert(r@.map_values(|b: (usize, usize)| s@.subrange(b.0 as int, b.1 as int))
                =~= before.map_values(|b: (usize, usize)| s@.subrange(b.0 as int, b.1 as int))
                + seq![s@.subrange(start as int, e as int)]);
            assert(lines_from(s@, len as int) == Seq::<Seq<char>>::empty());
            start = len;
        }
    }
    assert(lines(s@) =~= r@.map_values(
        |b: (usize, usize)| s@.subrange(b.0 as int, b.1 as int),
    ));
    assert forall|k: int| 0 <= k < r@.len() implies s@.subrange(r@[k].0 as int, r@[k].1 as int)
        == lines(s@)[k] by {
        assert(lines(s@)[k] == r@.map_values(
            |b: (usize, usize)| s@.subrange(b.0 as int, b.1 as int),
        )[k]);
    }
    r
}

// ---------------------------------------------------------------------------
// Laws
// ---------------------------------------------------------------------------

/// Every text contains itself and the empty text: what equals the output is
/// also contained in it.
pub proof fn lemma_contains_itself_and_empty(s: Seq<char>)
    ensures
        contains_seq(s, s),
        contains_seq(s, Seq::empty()),
{
    assert(s.subrange(0, s.len() as int) =~= s);
    assert(occurs_at(s, s, 0));
    assert(s.subrange(0, 0) =~= Seq::<char>::empty());
    assert(occurs_at(s, Seq::empty(), 0));
}

/// A text has no lines exactly when it is empty.
pub proof fn lemma_no_lines_iff_empty(s: Seq<char>)
    ensures
        lines(s).len() == 0 <==> s.len() == 0,
{
    if s.len() > 0 {
        lemma_next_newline_bounds(s, 0);
    }
}

/// No line from `start` on holds a `'\n'`.
proof fn lemma_lines_from_hold_no_newline(s: Seq<char>, start: int)
    ensures
        forall|k: int, j: int|
            0 <= k < lines_from(s, start).len() && 0 <= j < lines_from(s, start)[k].len()
                ==> #[trigger] lines_from(s, start)[k][j] != '\n',
    decreases s.len() - start,
{
    if 0 <= start < s.len() {
        lemma_next_newline_bounds(s, start);
        let e = next_newline(s, start);
        let seg = s.subrange(start, e);
        let line = if e < s.len() {
            strip_cr(seg)
        } else {
            seg
        };
        assert forall|j: int| 0 <= j < line.len() implies line[j] != '\n' by {
            assert(line[j] == seg[j]);
            assert(seg[j] == s[start + j]);
        }
        if e < s.len() {
            lemma_lines_from_hold_no_newline(s, e + 1);
            let rest = lines_from(s, e + 1);
            assert(lines_from(s, start) == seq![line] + rest);
            assert forall|k: int, j: int|
                0 <= k < lines_from(s, start).len() && 0 <= j < lines_from(s, start)[k].len()
                    implies #[trigger] lines_from(s, start)[k][j] != '\n' by {
                if k > 0 {
                    assert(lines_from(s, start)[k] == rest[k - 1]);
                }
            }
        }
    }
}

/// No line of a text holds a line feed.
pub proof fn lemma_lines_hold_no_newline(s: Seq<char>)
    ensures
        forall|k: int, j: int|
            0 <= k < lines(s).len() && 0 <= j < lines(s)[k].len() ==> #[trigger] lines(s)[k][j]
                != '\n',
{
    lemma_lines_from_hold_no_newline(s, 0);
}

/// Appending a line feed leaves the first line feed found from any position unchanged.
proof fn lemma_next_newline_after_push(s: Seq<char>, i: int)
    requires
        0 <= i <= s.len(),
    ensures
        next_newline(s.push('\n'), i) == next_newline(s, i),
    decreases s.len() - i,
{
    if i < s.len() {
        assert(s.push('\n')[i] == s[i]);
        if s[i] != '\n' {
            lemma_next_newline_after_push(s, i + 1);
        }
    }
}

proof fn lemma_lines_from_after_push(s: Seq<char>, start: int)
    requires
        0 <= start < s.len(),
        s.last() != '\n',
        s.last() != '\r',
    ensures
        lines_from(s.push('\n'), start) == lines_from(s, start),
    decreases s.len() - start,
{
    let s2 = s.push('\n');
    lemma_next_newline_bounds(s, start);
    lemma_next_newline_bounds(s2, start);
    lemma_next_newline_after_push(s, start);
    let e = next_newline(s, start);
    assert(s2.subrange(start, e) =~= s.subrange(start, e));
    if e < s.len() {
        if e + 1 < s.len() {
            lemma_lines_from_after_push(s, e + 1);
        } else {
            assert(s[e] == s.last());
        }
    } else {
        let seg = s.subrange(start, e);
        assert(seg.last() == s.last());
        assert(strip_cr(seg) == seg);
        assert(lines_from(s2, e + 1) == Seq::<Seq<char>>::empty());
        assert(lines_from(s2, start) =~= seq![seg]);
    }
}

/// A final line feed adds no line: a text that ends in neither `'\n'` nor
/// `'\r'` has the same lines with a `'\n'` appended.
pub proof fn lemma_final_newline_adds_no_line(s: Seq<char>)
    requires
        s.len() > 0,
        s.last() != '\n',
        s.last() != '\r',
    ensures
        lines(s.push('\n')) == lines(s),
{
    lemma_lines_from_after_push(s, 0);
}

/// What `trim_start` leaves starts with a character that is not white space.
proof fn lemma_trim_start_front(x: Seq<char>)
    ensures
        trim_start(x).len() > 0 ==> !is_white_space(trim_start(x)[0]),
    decreases x.len(),
{
    if x.len() > 0 && is_white_space(x[0]) {
        lemma_trim_start_front(x.drop_first());
    }
}

/// What `trim_end` leaves is a prefix of its argument that ends with a
/// character that is not white space.
proof fn lemma_trim_end_back(x: Seq<char>)
    ensures
        trim_end(x).len() <= x.len(),
        trim_end(x) == x.take(trim_end(x).len() as int),
        trim_end(x).len() > 0 ==> !is_white_space(trim_end(x).last()),
    decreases x.len(),
{
    if x.len() > 0 && is_white_space(x.last()) {
        lemma_trim_end_back(x.drop_last());
        let y = trim_end(x.drop_last());
        assert(x.drop_last().take(y.len() as int) =~= x.take(y.len() as int));
    } else {
        assert(x.take(x.len() as int) =~= x);
    }
}

/// Trimming twice is trimming once: output that is already trimmed is left as it is.
pub proof fn lemma_trim_idempotent(s: Seq<char>)
    ensures
        trim(trim(s)) == trim(s),
{
    let y = trim_start(s);
    let z = trim_end(y);
    lemma_trim_start_front(s);
    lemma_trim_end_back(y);
    if z.len() > 0 {
        assert(z[0] == y[0]);
    }
    assert(trim_start(z) == z);
    assert(trim_end(z) == z);
}

/// Every character of `w` is white space.
pub open spec fn all_white_space(w: Seq<char>) -> bool {
    forall|k: int| 0 <= k < w.len() ==> is_white_space(#[trigger] w[k])
}

/// Leading white space is dropped by `trim_start`.
proof fn lemma_trim_start_skips_white_prefix(w: Seq<char>, s: Seq<char>)
    requires
        all_white_space(w),
    ensures
        trim_start(w + s) == trim_start(s),
    decreases w.len(),
{
    if w.len() > 0 {
        assert((w + s)[0] == w[0]);
        assert((w + s).drop_first() =~= w.drop_first() + s);
        assert(all_white_space(w.drop_first())) by {
            assert forall|k: int| 0 <= k < w.drop_first().len() implies is_white_space(
                #[trigger] w.drop_first()[k],
            ) by {
                assert(w.drop_first()[k] == w[k + 1]);
            }
        }
        lemma_trim_start_skips_white_prefix(w.drop_first(), s);
    } else {
        assert(w + s =~= s);
    }
}

/// Trailing white space is dropped by `trim_end`.
proof fn lemma_trim_end_skips_white_suffix(s: Seq<char>, w: Seq<char>)
    requires
        all_white_space(w),
    ensures
        trim_end(s + w) == trim_end(s),
    decreases w.len(),
{
    if w.len() > 0 {
        assert((s + w).last() == w.last());
        assert((s + w).drop_last() =~= s + w.drop_last());
        assert(all_white_space(w.drop_last())) by {
            assert forall|k: int| 0 <= k < w.drop_last().len() implies is_white_space(
                #[trigger] w.drop_last()[k],
            ) by {
                assert(w.drop_last()[k] == w[k]);
            }
        }
        lemma_trim_end_skips_white_suffix(s, w.drop_last());
    } else {
        assert(s + w =~= s);
    }
}

/// `trim_start` of a text followed by more text.
proof fn lemma_trim_start_concat(s: Seq<char>, u: Seq<char>)
    ensures
        trim_start(s).len() > 0 ==> trim_start(s + u) == trim_start(s) + u,
        trim_start(s).len() == 0 ==> trim_start(s + u) == trim_start(u),
    decreases s.len(),
{
    if s.len() == 0 {
        assert(s + u =~= u);
    } else {
        assert((s + u)[0] == s[0]);
        if is_white_space(s[0]) {
            assert((s + u).drop_first() =~= s.drop_first() + u);
            lemma_trim_start_concat(s.drop_first(), u);
        }
    }
}

/// White space around a text changes nothing of what `trim` leaves: output
/// is matched the same with or without it.
pub proof fn lemma_trim_ignores_surrounding_white_space(
    w1: Seq<char>,
    s: Seq<char>,
    w2: Seq<char>,
)
    requires
        all_white_space(w1),
        all_white_space(w2),
    ensures
        trim(w1 + s + w2) == trim(s),
{
    assert(w1 + s + w2 =~= w1 + (s + w2));
    lemma_trim_start_skips_white_prefix(w1, s + w2);
    lemma_trim_start_concat(s, w2);
    if trim_start(s).len() > 0 {
        lemma_trim_end_skips_white_suffix(trim_start(s), w2);
    } else {
        lemma_trim_start_skips_white_prefix(w2, Seq::empty());
        assert(w2 + Seq::<char>::empty() =~= w2);
    }
}

/// The lines `ls` joined with a `'\n'` between each two.
pub open spec fn join_lines(ls: Seq<Seq<char>>) -> Seq<char>
    decreases ls.len(),
{
    if ls.len() == 0 {
        Seq::empty()
    } else if ls.len() == 1 {
        ls[0]
    } else {
        ls[0] + seq!['\n'] + join_lines(ls.drop_first())
    }
}

/// `s` holds no carriage return.
pub open spec fn has_no_cr(s: Seq<char>) -> bool {
    forall|k: int| 0 <= k < s.len() ==> #[trigger] s[k] != '\r'
}

proof fn lemma_join_lines_from(s: Seq<char>, start: int)
    requires
        0 <= start < s.len(),
        has_no_cr(s),
        s.last() != '\n',
    ensures
        lines_from(s, start).len() > 0,
        join_lines(lines_from(s, start)) == s.skip(start),
    decreases s.len() - start,
{
    lemma_next_newline_bounds(s, start);
    let e = next_newline(s, start);
    let seg = s.subrange(start, e);
    if e < s.len() {
        if seg.len() > 0 {
            assert(seg.last() == s[e - 1]);
        }
        assert(strip_cr(seg) == seg);
        if e + 1 >= s.len() {
            assert(s[e] == s.last());
        }
        lemma_join_lines_from(s, e + 1);
        let rest = lines_from(s, e + 1);
        let all = seq![seg] + rest;
        assert(lines_from(s, start) == all);
        assert(all[0] == seg);
        assert(all.drop_first() =~= rest);
        assert(s.skip(start) =~= seg + seq!['\n'] + s.skip(e + 1));
    } else {
        assert(lines_from(s, start) =~= seq![seg]);
        assert(seg =~= s.skip(start));
    }
}

/// Joining the lines of a text with line feeds gives the text back, when it
/// holds no carriage return and does not end with a line feed.
pub proof fn lemma_join_lines_gives_text_back(s: Seq<char>)
    requires
        has_no_cr(s),
        s.len() > 0 ==> s.last() != '\n',
    ensures
        join_lines(lines(s)) == s,
{
    if s.len() > 0 {
        lemma_join_lines_from(s, 0);
        assert(s.skip(0) =~= s);
    } else {
        assert(lines(s) == Seq::<Seq<char>>::empty());
        assert(s =~= Seq::<char>::empty());
    }
}

/// The characters that `char::is_whitespace` accepts, named one by one as
/// Unicode lists its `White_Space` property.
pub open spec fn is_listed_white_space(c: char) -> bool {
    ||| c == '\u{0009}' || c == '\u{000A}' || c == '\u{000B}' || c == '\u{000C}'
    ||| c == '\u{000D}' || c == '\u{0020}' || c == '\u{0085}' || c == '\u{00A0}'
    ||| c == '\u{1680}' || c == '\u{2000}' || c == '\u{2001}' || c == '\u{2002}'
    ||| c == '\u{2003}' || c == '\u{2004}' || c == '\u{2005}' || c == '\u{2006}'
    ||| c == '\u{2007}' || c == '\u{2008}' || c == '\u{2009}' || c == '\u{200A}'
    ||| c == '\u{2028}' || c == '\u{2029}' || c == '\u{202F}' || c == '\u{205F}'
    ||| c == '\u{3000}'
}

/// White space is exactly the Unicode `White_Space` set: tab, line feed,
/// vertical tab, form feed, carriage return, space and the others it lists.
pub proof fn lemma_white_space_is_unicode_set(c: char)
    ensures
        is_white_space(c) <==> is_listed_white_space(c),
{
    vstd::utf8::char_u32_cast(c, c as u32);
    if is_listed_white_space(c) {
        assert(is_white_space(c));
    }
    if is_white_space(c) {
        let u = c as u32;
        assert(u == 0x09 || u == 0x0a || u == 0x0b || u == 0x0c || u == 0x0d || u == 0x20 || u
            == 0x85 || u == 0xa0 || u == 0x1680 || u == 0x2000 || u == 0x2001 || u == 0x2002 || u
            == 0x2003 || u == 0x2004 || u == 0x2005 || u == 0x2006 || u == 0x2007 || u == 0x2008
            || u == 0x2009 || u == 0x200a || u == 0x2028 || u == 0x2029 || u == 0x202f || u
            == 0x205f || u == 0x3000);
    }
}

/// `trim_start` drops a run of white space from the front and stops at a
/// character that is not white space.
proof fn lemma_trim_start_drops_white_run(x: Seq<char>) -> (a: int)
    ensures
        0 <= a <= x.len(),
        trim_start(x) == x.skip(a),
        forall|k: int| 0 <= k < a ==> is_white_space(#[trigger] x[k]),
        a < x.len() ==> !is_white_space(x[a]),
    decreases x.len(),
{
    if x.len() > 0 && is_white_space(x[0]) {
        let b = lemma_trim_start_drops_white_run(x.drop_first());
        assert(x.drop_first().skip(b) =~= x.skip(b + 1));
        assert forall|k: int| 0 <= k < b + 1 implies is_white_space(#[trigger] x[k]) by {
            if k > 0 {
                assert(x[k] == x.drop_first()[k - 1]);
            }
        }
        assert(b + 1 < x.len() ==> x[b + 1] == x.drop_first()[b]);
        b + 1
    } else {
        assert(x.skip(0) =~= x);
        0
    }
}

/// `trim_end` drops a run of white space from the back and stops at a
/// character that is not white space.
proof fn lemma_trim_end_drops_white_run(x: Seq<char>) -> (b: int)
    ensures
        0 <= b <= x.len(),
        trim_end(x) == x.take(b),
        forall|k: int| b <= k < x.len() ==> is_white_space(#[trigger] x[k]),
        b > 0 ==> !is_white_space(x[b - 1]),
    decreases x.len(),
{
    if x.len() > 0 && is_white_space(x.last()) {
        let c = lemma_trim_end_drops_white_run(x.drop_last());
        assert(x.drop_last().take(c) =~= x.take(c));
        assert forall|k: int| c <= k < x.len() implies is_white_space(#[trigger] x[k]) by {
            if k < x.len() - 1 {
                assert(x[k] == x.drop_last()[k]);
            }
        }
        assert(c > 0 ==> x[c - 1] == x.drop_last()[c - 1]);
        c
    } else {
        assert(x.take(x.len() as int) =~= x);
        x.len() as int
    }
}

/// `trim` cuts away exactly the white space at both ends: what it leaves is
/// a contiguous part of the text, everything cut off is white space, and what
/// is left neither starts nor ends with white space.
pub proof fn lemma_trim_cuts_white_space_ends(s: Seq<char>)
    ensures
        exists|a: int, b: int|
            #![trigger s.subrange(a, b)]
            {
                &&& 0 <= a <= b <= s.len()
                &&& trim(s) == s.subrange(a, b)
                &&& forall|k: int| 0 <= k < a ==> is_white_space(#[trigger] s[k])
                &&& forall|k: int| b <= k < s.len() ==> is_white_space(#[trigger] s[k])
                &&& a < b ==> !is_white_space(s[a]) && !is_white_space(s[b - 1])
            },
{
    let a = lemma_trim_start_drops_white_run(s);
    let x = s.skip(a);
    let c = lemma_trim_end_drops_white_run(x);
    let b = a + c;
    assert(x.take(c) =~= s.subrange(a, b));
    assert forall|k: int| b <= k < s.len() implies is_white_space(#[trigger] s[k]) by {
        assert(s[k] == x[k - a]);
    }
    if a < b {
        assert(s[a] == x[0]);
        assert(s[b - 1] == x[c - 1]);
    }
    assert(trim(s) == s.subrange(a, b));
}

/// The number of non-empty lines is the length of the lines kept by a
/// filter on a non-zero length.
pub proof fn lemma_count_non_empty_is_filter_len(ls: Seq<Seq<char>>)
    ensures
        count_non_empty(ls) == ls.filter(|l: Seq<char>| l.len() > 0).len(),
    decreases ls.len(),
{
    reveal(Seq::filter);
    if ls.len() > 0 {
        lemma_count_non_empty_is_filter_len(ls.drop_last());
    }
}

/// `needle` agrees character by character with `hay` from position `i` on,
/// its last character included.
pub open spec fn chars_agree_at(hay: Seq<char>, needle: Seq<char>, i: int) -> bool {
    &&& 0 <= i
    &&& i + needle.len() <= hay.len()
    &&& forall|k: int| 0 <= k < needle.len() ==> hay[i + k] == #[trigger] needle[k]
}

/// A text contains a needle exactly when, at some position, every character
/// of the needle, the last one included, equals the character of the text
/// there.
pub proof fn lemma_contains_means_every_char_agrees(hay: Seq<char>, needle: Seq<char>)
    ensures
        contains_seq(hay, needle) <==> exists|i: int| #[trigger] chars_agree_at(hay, needle, i),
{
    if contains_seq(hay, needle) {
        let i = choose|i: int| #[trigger] occurs_at(hay, needle, i);
        assert forall|k: int| 0 <= k < needle.len() implies hay[i + k] == #[trigger] needle[k] by {
            assert(hay.subrange(i, i + needle.len())[k] == hay[i + k]);
        }
        assert(chars_agree_at(hay, needle, i));
    }
    if exists|i: int| #[trigger] chars_agree_at(hay, needle, i) {
        let i = choose|i: int| #[trigger] chars_agree_at(hay, needle, i);
        assert forall|k: int| 0 <= k < needle.len() implies hay.subrange(i, i + needle.len())[k]
            == needle[k] by {
            assert(hay.subrange(i, i + needle.len())[k] == hay[i + k]);
        }
        assert(hay.subrange(i, i + needle.len()) =~= needle);
        assert(occurs_at(hay, needle, i));
    }
}

/// Every carriage return of `s` is directly followed by a line feed.
pub open spec fn cr_only_before_lf(s: Seq<char>) -> bool {
    forall|k: int| 0 <= k < s.len() && #[trigger] s[k] == '\r' ==> k + 1 < s.len() && s[k + 1] == '\n'
}

proof fn lemma_lines_from_hold_no_cr(s: Seq<char>, start: int)
    requires
        cr_only_before_lf(s),
    ensures
        forall|k: int, j: int|
            0 <= k < lines_from(s, start).len() && 0 <= j < lines_from(s, start)[k].len()
                ==> #[trigger] lines_from(s, start)[k][j] != '\r',
    decreases s.len() - start,
{
    if 0 <= start < s.len() {
        lemma_next_newline_bounds(s, start);
        let e = next_newline(s, start);
        let seg = s.subrange(start, e);
        let line = if e < s.len() {
            strip_cr(seg)
        } else {
            seg
        };
        assert forall|j: int| 0 <= j < line.len() implies line[j] != '\r' by {
            assert(line[j] == seg[j]);
            assert(seg[j] == s[start + j]);
            if s[start + j] == '\r' {
                assert(s[start + j + 1] == '\n');
                assert(start + j + 1 >= e);
                assert(seg.len() > 0 && seg.last() == '\r');
            }
        }
        if e < s.len() {
            lemma_lines_from_hold_no_cr(s, e + 1);
            let rest = lines_from(s, e + 1);
            assert(lines_from(s, start) == seq![line] + rest);
            assert forall|k: int, j: int|
                0 <= k < lines_from(s, start).len() && 0 <= j < lines_from(s, start)[k].len()
                    implies #[trigger] lines_from(s, start)[k][j] != '\r' by {
                if k > 0 {
                    assert(lines_from(s, start)[k] == rest[k - 1]);
                }
            }
        }
    }
}

/// Every `"\r\n"` line ending is removed whole, the last one included: when
/// each carriage return of a text comes right before a line feed, no line
/// holds a carriage return.
pub proof fn lemma_crlf_endings_leave_no_cr(s: Seq<char>)
    requires
        cr_only_before_lf(s),
    ensures
        forall|k: int, j: int|
            0 <= k < lines(s).len() && 0 <= j < lines(s)[k].len() ==> #[trigger] lines(s)[k][j]
                != '\r',
{
    lemma_lines_from_hold_no_cr(s, 0);
}

} // verus!
