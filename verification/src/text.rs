//! Character-level text handling shared by the parsers: whitespace, line and
//! field splitting, trimming, substring search and decimal numbers.
//!
//! Text is modelled as `Seq<char>`; executable code works on `Vec<char>`.
use vstd::prelude::*;
use vstd::std_specs::iter::IteratorSpec;

verus! {

// ---------------------------------------------------------------------------
// Conversions between `str`/`String` and `Vec<char>`.
// ---------------------------------------------------------------------------

/// The characters of a string slice, in order.
pub fn chars_of(s: &str) -> (v: Vec<char>)
    ensures
        v@ == s@,
{
    broadcast use vstd::string::group_string_axioms;

    let mut it = s.chars();
    let mut v: Vec<char> = Vec::new();
    loop
        invariant
            v@ + it.remaining() == s@,
            it.obeys_prophetic_iter_laws(),
            it.decrease() is Some,
        ensures
            v@ == s@,
        decreases it.decrease()->0,
    {
        match it.next() {
            Some(c) => {
                let ghost before = v@;
                v.push(c);
                proof {
                    assert(v@ + it.remaining() =~= s@);
                }
            },
            None => {
                proof {
                    assert(v@ =~= s@);
                }
                break ;
            },
        }
    }
    v
}

/// A `String` holding exactly the given characters.
///
/// Trusted: calls `String::from_iter`, which appends each character in order.
#[verifier::external_body]
pub fn string_of(v: &Vec<char>) -> (s: String)
    ensures
        s@ == v@,
{
    String::from_iter(v.iter())
}

/// Copies `s[from..to]` into a new vector.
pub fn copy_range(s: &Vec<char>, from: usize, to: usize) -> (r: Vec<char>)
    requires
        from <= to <= s@.len(),
    ensures
        r@ == s@.subrange(from as int, to as int),
{
    let mut r: Vec<char> = Vec::new();
    let mut i = from;
    while i < to
        invariant
            from <= i <= to <= s@.len(),
            r@ == s@.subrange(from as int, i as int),
        decreases to - i,
    {
        r.push(s[i]);
        proof {
            assert(s@.subrange(from as int, i + 1) == s@.subrange(from as int, i as int).push(s@[i as int]));
        }
        i = i + 1;
    }
    r
}

/// A copy of `s`.
pub fn clone_chars(s: &Vec<char>) -> (r: Vec<char>)
    ensures
        r@ == s@,
{
    let r = copy_range(s, 0, s.len());
    assert(s@.subrange(0, s@.len() as int) == s@);
    r
}

/// Appends all of `src` to `dst`.
pub fn append_chars(dst: &mut Vec<char>, src: &Vec<char>)
    ensures
        final(dst)@ == old(dst)@ + src@,
{
    let mut i: usize = 0;
    while i < src.len()
        invariant
            0 <= i <= src@.len(),
            dst@ == old(dst)@ + src@.take(i as int),
        decreases src@.len() - i,
    {
        dst.push(src[i]);
        proof {
            assert(src@.take(i + 1) == src@.take(i as int).push(src@[i as int]));
        }
        i = i + 1;
    }
    proof {
        assert(src@.take(src@.len() as int) == src@);
    }
}

/// Appends all characters of `src` to `dst`.
pub fn append_str(dst: &mut Vec<char>, src: &str)
    ensures
        final(dst)@ == old(dst)@ + src@,
{
    let v = chars_of(src);
    append_chars(dst, &v);
}

/// The characters of an optional string.
pub open spec fn opt_view(o: Option<String>) -> Option<Seq<char>> {
    match o {
        Some(s) => Some(s@),
        None => None,
    }
}

// ---------------------------------------------------------------------------
// Character classes.
// ---------------------------------------------------------------------------

/// The Unicode `White_Space` property, which `char::is_whitespace` tests.
pub open spec fn is_ws(c: char) -> bool {
    ||| ('\u{9}' <= c && c <= '\u{d}')
    ||| c == ' '
    ||| c == '\u{85}'
    ||| c == '\u{a0}'
    ||| c == '\u{1680}'
    ||| ('\u{2000}' <= c && c <= '\u{200a}')
    ||| c == '\u{2028}'
    ||| c == '\u{2029}'
    ||| c == '\u{202f}'
    ||| c == '\u{205f}'
    ||| c == '\u{3000}'
}

pub fn is_whitespace(c: char) -> (b: bool)
    ensures
        b == is_ws(c),
{
    ('\u{9}' <= c && c <= '\u{d}') || c == ' ' || c == '\u{85}' || c == '\u{a0}' || c == '\u{1680}'
        || ('\u{2000}' <= c && c <= '\u{200a}') || c == '\u{2028}' || c == '\u{2029}' || c
        == '\u{202f}' || c == '\u{205f}' || c == '\u{3000}'
}

/// An ASCII decimal digit.
pub open spec fn is_digit(c: char) -> bool {
    '0' <= c && c <= '9'
}

pub open spec fn all_digits(s: Seq<char>) -> bool {
    forall|i: int| 0 <= i < s.len() ==> #[trigger] is_digit(s[i])
}

// ---------------------------------------------------------------------------
// Substring search.
// ---------------------------------------------------------------------------

/// `p` occurs in `s` starting at index `i`.
pub open spec fn matches_at(s: Seq<char>, p: Seq<char>, i: int) -> bool {
    &&& 0 <= i
    &&& i + p.len() <= s.len()
    &&& forall|k: int| 0 <= k < p.len() ==> #[trigger] s[i + k] == p[k]
}

/// `str::contains` with a string pattern.
pub open spec fn contains(s: Seq<char>, p: Seq<char>) -> bool {
    exists|i: int| #[trigger] matches_at(s, p, i)
}

/// `str::starts_with` with a string pattern.
pub open spec fn starts_with(s: Seq<char>, p: Seq<char>) -> bool {
    matches_at(s, p, 0)
}

pub fn matches_at_exec(s: &Vec<char>, p: &Vec<char>, i: usize) -> (b: bool)
    ensures
        b == matches_at(s@, p@, i as int),
{
    if i > s.len() || p.len() > s.len() - i {
        return false;
    }
    let mut k: usize = 0;
    let n = s.len();
    while k < p.len()
        invariant
            n == s@.len(),
            i + p@.len() <= s@.len(),
            0 <= k <= p@.len(),
            forall|j: int| 0 <= j < k ==> #[trigger] s@[i + j] == p@[j],
        decreases p@.len() - k,
    {
        if s[i + k] != p[k] {
            return false;
        }
        k = k + 1;
    }
    true
}

pub fn contains_exec(s: &Vec<char>, p: &Vec<char>) -> (b: bool)
    ensures
        b == contains(s@, p@),
{
    if p.len() > s.len() {
        proof {
            assert forall|i: int| !#[trigger] matches_at(s@, p@, i) by {}
        }
        return false;
    }
    if p.len() == 0 {
        proof {
            assert(matches_at(s@, p@, 0));
        }
        return true;
    }
    let last = s.len() - p.len();
    let mut i: usize = 0;
    let n = s.len();
    while i <= last
        invariant
            n == s@.len(),
            p@.len() > 0,
            last + p@.len() == s@.len(),
            0 <= i <= last + 1,
            forall|j: int| 0 <= j < i ==> !#[trigger] matches_at(s@, p@, j),
        decreases last + 1 - i,
    {
        if matches_at_exec(s, p, i) {
            return true;
        }
        i = i + 1;
    }
    proof {
        assert forall|j: int| !#[trigger] matches_at(s@, p@, j) by {
            if 0 <= j < i {
            }
        }
    }
    false
}

pub fn contains_str(s: &Vec<char>, p: &str) -> (b: bool)
    ensures
        b == contains(s@, p@),
{
    let pv = chars_of(p);
    contains_exec(s, &pv)
}

pub fn starts_with_str(s: &Vec<char>, p: &str) -> (b: bool)
    ensures
        b == starts_with(s@, p@),
{
    let pv = chars_of(p);
    matches_at_exec(s, &pv, 0)
}

// ---------------------------------------------------------------------------
// Trimming.
// ---------------------------------------------------------------------------

/// `str::trim_start`.
pub open spec fn trim_start(s: Seq<char>) -> Seq<char>
    decreases s.len(),
{
    if s.len() > 0 && is_ws(s[0]) {
        trim_start(s.skip(1))
    } else {
        s
    }
}

/// `str::trim_end`.
pub open spec fn trim_end(s: Seq<char>) -> Seq<char>
    decreases s.len(),
{
    if s.len() > 0 && is_ws(s.last()) {
        trim_end(s.drop_last())
    } else {
        s
    }
}

/// `str::trim`.
pub open spec fn trim(s: Seq<char>) -> Seq<char> {
    trim_end(trim_start(s))
}

proof fn lemma_trim_start_skip(s: Seq<char>, i: int)
    requires
        0 <= i < s.len(),
        is_ws(s[i]),
    ensures
        trim_start(s.skip(i)) == trim_start(s.skip(i + 1)),
{
    assert(s.skip(i).skip(1) == s.skip(i + 1));
}

proof fn lemma_trim_end_take(s: Seq<char>, j: int)
    requires
        0 < j <= s.len(),
        is_ws(s[j - 1]),
    ensures
        trim_end(s.take(j)) == trim_end(s.take(j - 1)),
{
    assert(s.take(j).drop_last() == s.take(j - 1));
}

/// Index of the first character that is not whitespace (or the length).
fn leading_ws(s: &Vec<char>) -> (i: usize)
    ensures
        i <= s@.len(),
        trim_start(s@) == s@.skip(i as int),
{
    let mut i: usize = 0;
    proof {
        assert(s@.skip(0) == s@);
    }
    while i < s.len() && is_whitespace(s[i])
        invariant
            0 <= i <= s@.len(),
            trim_start(s@) == trim_start(s@.skip(i as int)),
        decreases s@.len() - i,
    {
        proof {
            lemma_trim_start_skip(s@, i as int);
        }
        i = i + 1;
    }
    i
}

/// Length of the prefix of `s[..upto]` left after removing trailing whitespace.
fn trailing_ws_end(s: &Vec<char>, from: usize) -> (j: usize)
    requires
        from <= s@.len(),
    ensures
        from <= j <= s@.len(),
        trim_end(s@.skip(from as int)) == s@.subrange(from as int, j as int),
{
    let mut j: usize = s.len();
    proof {
        assert(s@.skip(from as int) == s@.subrange(from as int, s@.len() as int));
    }
    while j > from && is_whitespace(s[j - 1])
        invariant
            from <= j <= s@.len(),
            trim_end(s@.skip(from as int)) == trim_end(s@.subrange(from as int, j as int)),
        decreases j,
    {
        proof {
            let t = s@.subrange(from as int, j as int);
            assert(t.drop_last() == s@.subrange(from as int, j - 1));
        }
        j = j - 1;
    }
    j
}

pub fn trim_start_exec(s: &Vec<char>) -> (r: Vec<char>)
    ensures
        r@ == trim_start(s@),
{
    let i = leading_ws(s);
    proof {
        assert(s@.skip(i as int) == s@.subrange(i as int, s@.len() as int));
    }
    copy_range(s, i, s.len())
}

pub fn trim_exec(s: &Vec<char>) -> (r: Vec<char>)
    ensures
        r@ == trim(s@),
{
    let i = leading_ws(s);
    let j = trailing_ws_end(s, i);
    copy_range(s, i, j)
}

/// `str::trim_end_matches` with a single character.
pub open spec fn trim_end_char(s: Seq<char>, c: char) -> Seq<char>
    decreases s.len(),
{
    if s.len() > 0 && s.last() == c {
        trim_end_char(s.drop_last(), c)
    } else {
        s
    }
}

pub fn trim_end_char_exec(s: &Vec<char>, c: char) -> (r: Vec<char>)
    ensures
        r@ == trim_end_char(s@, c),
{
    let mut j: usize = s.len();
    proof {
        assert(s@.take(s@.len() as int) == s@);
    }
    while j > 0 && s[j - 1] == c
        invariant
            0 <= j <= s@.len(),
            trim_end_char(s@, c) == trim_end_char(s@.take(j as int), c),
        decreases j,
    {
        proof {
            assert(s@.take(j as int).drop_last() == s@.take(j - 1));
        }
        j = j - 1;
    }
    proof {
        assert(s@.take(j as int) == s@.subrange(0, j as int));
    }
    copy_range(s, 0, j)
}

/// `str::trim_start_matches` with a non-empty string pattern: removes the
/// pattern from the front as many times as it occurs there.
pub open spec fn strip_prefix_all(s: Seq<char>, p: Seq<char>) -> Seq<char>
    decreases s.len(),
{
    if p.len() > 0 && starts_with(s, p) {
        strip_prefix_all(s.skip(p.len() as int), p)
    } else {
        s
    }
}

pub fn strip_prefix_all_exec(s: &Vec<char>, p: &str) -> (r: Vec<char>)
    ensures
        r@ == strip_prefix_all(s@, p@),
{
    let pv = chars_of(p);
    if pv.len() == 0 {
        return copy_range(s, 0, s.len());
    }
    let mut i: usize = 0;
    let n = s.len();
    proof {
        assert(s@.skip(0) == s@);
    }
    while matches_at_exec(s, &pv, i)
        invariant
            n == s@.len(),
            pv@ == p@,
            pv@.len() > 0,
            0 <= i <= s@.len(),
            strip_prefix_all(s@, p@) == strip_prefix_all(s@.skip(i as int), p@),
        decreases s@.len() - i,
    {
        proof {
            let t = s@.skip(i as int);
            assert forall|k: int| 0 <= k < p@.len() implies #[trigger] t[0 + k] == p@[k] by {
                assert(s@[i + k] == p@[k]);
            }
            assert(starts_with(t, p@));
            assert(t.skip(p@.len() as int) == s@.skip(i + p@.len()));
        }
        i = i + pv.len();
    }
    proof {
        let t = s@.skip(i as int);
        if starts_with(t, p@) {
            assert forall|k: int| 0 <= k < p@.len() implies #[trigger] s@[i + k] == p@[k] by {
                assert(t[0 + k] == p@[k]);
            }
            assert(matches_at(s@, p@, i as int));
        }
        assert(s@.skip(i as int) == s@.subrange(i as int, s@.len() as int));
    }
    copy_range(s, i, s.len())
}

// ---------------------------------------------------------------------------
// Splitting.
// ---------------------------------------------------------------------------

/// Left-to-right scan behind `str::split` with a character separator: the
/// finished pieces and the piece being read.
pub open spec fn split_scan(s: Seq<char>, sep: char) -> (Seq<Seq<char>>, Seq<char>)
    decreases s.len(),
{
    if s.len() == 0 {
        (seq![], seq![])
    } else {
        let (done, cur) = split_scan(s.drop_last(), sep);
        if s.last() == sep {
            (done.push(cur), seq![])
        } else {
            (done, cur.push(s.last()))
        }
    }
}

/// `str::split` with a character separator: every piece, empty ones included.
pub open spec fn split_char(s: Seq<char>, sep: char) -> Seq<Seq<char>> {
    split_scan(s, sep).0.push(split_scan(s, sep).1)
}

/// Left-to-right scan behind `str::split_whitespace`.
pub open spec fn words_scan(s: Seq<char>) -> (Seq<Seq<char>>, Seq<char>)
    decreases s.len(),
{
    if s.len() == 0 {
        (seq![], seq![])
    } else {
        let (done, cur) = words_scan(s.drop_last());
        if is_ws(s.last()) {
            if cur.len() > 0 {
                (done.push(cur), seq![])
            } else {
                (done, seq![])
            }
        } else {
            (done, cur.push(s.last()))
        }
    }
}

/// `str::split_whitespace`: the maximal runs of non-whitespace characters.
pub open spec fn words(s: Seq<char>) -> Seq<Seq<char>> {
    let (done, cur) = words_scan(s);
    if cur.len() > 0 {
        done.push(cur)
    } else {
        done
    }
}

/// Removes one trailing carriage return.
pub open spec fn strip_cr(s: Seq<char>) -> Seq<char> {
    if s.len() > 0 && s.last() == '\r' {
        s.drop_last()
    } else {
        s
    }
}

/// Left-to-right scan behind `str::lines`.
pub open spec fn lines_scan(s: Seq<char>) -> (Seq<Seq<char>>, Seq<char>)
    decreases s.len(),
{
    if s.len() == 0 {
        (seq![], seq![])
    } else {
        let (done, cur) = lines_scan(s.drop_last());
        if s.last() == '\n' {
            (done.push(strip_cr(cur)), seq![])
        } else {
            (done, cur.push(s.last()))
        }
    }
}

/// `str::lines`: pieces ended by `\n` or `\r\n`; a final piece without a line
/// ending is kept as it is, and an empty final piece is dropped.
pub open spec fn lines(s: Seq<char>) -> Seq<Seq<char>> {
    let (done, cur) = lines_scan(s);
    if cur.len() > 0 {
        done.push(cur)
    } else {
        done
    }
}

pub open spec fn deep_views(v: Seq<Vec<char>>) -> Seq<Seq<char>> {
    Seq::new(v.len(), |i: int| v[i]@)
}

pub proof fn lemma_deep_views_push(v: Seq<Vec<char>>, x: Vec<char>)
    ensures
        deep_views(v.push(x)) == deep_views(v).push(x@),
{
    assert(deep_views(v.push(x)) =~= deep_views(v).push(x@));
}

/// Reading up to a whitespace character finishes the words before it.
proof fn lemma_words_scan_at_space(x: Seq<char>, c: char, y: Seq<char>)
    requires
        is_ws(c),
    ensures
        words_scan(x + seq![c] + y) == (words(x) + words_scan(y).0, words_scan(y).1),
    decreases y.len(),
{
    let s = x + seq![c] + y;
    if y.len() == 0 {
        assert(s.drop_last() =~= x);
        assert(words(x) + words_scan(y).0 =~= words(x));
    } else {
        lemma_words_scan_at_space(x, c, y.drop_last());
        assert(s.drop_last() =~= x + seq![c] + y.drop_last());
        let (d0, c0) = words_scan(y.drop_last());
        assert((words(x) + d0).push(c0) =~= words(x) + d0.push(c0));
    }
}

/// The words on both sides of a whitespace character are the words of the whole.
pub proof fn lemma_words_at_space(x: Seq<char>, c: char, y: Seq<char>)
    requires
        is_ws(c),
    ensures
        words(x + seq![c] + y) == words(x) + words(y),
{
    lemma_words_scan_at_space(x, c, y);
    let (d, cur) = words_scan(y);
    assert((words(x) + d).push(cur) =~= words(x) + d.push(cur));
}

proof fn lemma_words_scan_no_space(w: Seq<char>)
    requires
        forall|i: int| 0 <= i < w.len() ==> !is_ws(#[trigger] w[i]),
    ensures
        words_scan(w) == (Seq::<Seq<char>>::empty(), w),
    decreases w.len(),
{
    if w.len() > 0 {
        assert forall|i: int| 0 <= i < w.drop_last().len() implies !is_ws(
            #[trigger] w.drop_last()[i],
        ) by {
            assert(w.drop_last()[i] == w[i]);
        }
        lemma_words_scan_no_space(w.drop_last());
        assert(w.drop_last().push(w.last()) =~= w);
    }
}

/// A non-empty run without whitespace is one word.
pub proof fn lemma_words_single(w: Seq<char>)
    requires
        w.len() > 0,
        forall|i: int| 0 <= i < w.len() ==> !is_ws(#[trigger] w[i]),
    ensures
        words(w) == seq![w],
{
    lemma_words_scan_no_space(w);
    assert(Seq::<Seq<char>>::empty().push(w) =~= seq![w]);
}

proof fn lemma_lines_scan_no_newline(s: Seq<char>)
    requires
        forall|i: int| 0 <= i < s.len() ==> #[trigger] s[i] != '\n',
    ensures
        lines_scan(s) == (Seq::<Seq<char>>::empty(), s),
    decreases s.len(),
{
    if s.len() > 0 {
        assert forall|i: int| 0 <= i < s.drop_last().len() implies #[trigger] s.drop_last()[i]
            != '\n' by {
            assert(s.drop_last()[i] == s[i]);
        }
        lemma_lines_scan_no_newline(s.drop_last());
        assert(s.drop_last().push(s.last()) =~= s);
    }
}

/// Text without a line break is a single line.
pub proof fn lemma_lines_single(s: Seq<char>)
    requires
        s.len() > 0,
        forall|i: int| 0 <= i < s.len() ==> #[trigger] s[i] != '\n',
    ensures
        lines(s) == seq![s],
{
    lemma_lines_scan_no_newline(s);
    assert(Seq::<Seq<char>>::empty().push(s) =~= seq![s]);
}

fn strip_cr_exec(v: Vec<char>) -> (r: Vec<char>)
    ensures
        r@ == strip_cr(v@),
{
    let mut v = v;
    if v.len() > 0 && v[v.len() - 1] == '\r' {
        v.pop();
    }
    v
}

/// `str::split` with a character separator.
pub fn split_char_exec(s: &Vec<char>, sep: char) -> (r: Vec<Vec<char>>)
    ensures
        deep_views(r@) == split_char(s@, sep),
        r@.len() >= 1,
{
    let mut done: Vec<Vec<char>> = Vec::new();
    let mut cur: Vec<char> = Vec::new();
    let mut i: usize = 0;
    while i < s.len()
        invariant
            0 <= i <= s@.len(),
            (deep_views(done@), cur@) == split_scan(s@.take(i as int), sep),
        decreases s@.len() - i,
    {
        let c = s[i];
        proof {
            assert(s@.take(i + 1).drop_last() == s@.take(i as int));
            assert(s@.take(i + 1).last() == c);
        }
        if c == sep {
            proof {
                lemma_deep_views_push(done@, cur);
            }
            done.push(cur);
            cur = Vec::new();
        } else {
            cur.push(c);
        }
        i = i + 1;
    }
    proof {
        assert(s@.take(s@.len() as int) == s@);
        lemma_deep_views_push(done@, cur);
    }
    done.push(cur);
    done
}

/// `str::split_whitespace`.
pub fn words_exec(s: &Vec<char>) -> (r: Vec<Vec<char>>)
    ensures
        deep_views(r@) == words(s@),
{
    let mut done: Vec<Vec<char>> = Vec::new();
    let mut cur: Vec<char> = Vec::new();
    let mut i: usize = 0;
    while i < s.len()
        invariant
            0 <= i <= s@.len(),
            (deep_views(done@), cur@) == words_scan(s@.take(i as int)),
        decreases s@.len() - i,
    {
        let c = s[i];
        proof {
            assert(s@.take(i + 1).drop_last() == s@.take(i as int));
            assert(s@.take(i + 1).last() == c);
        }
        if is_whitespace(c) {
            if cur.len() > 0 {
                proof {
                    lemma_deep_views_push(done@, cur);
                }
                done.push(cur);
                cur = Vec::new();
            }
        } else {
            cur.push(c);
        }
        i = i + 1;
    }
    proof {
        assert(s@.take(s@.len() as int) == s@);
    }
    if cur.len() > 0 {
        proof {
            lemma_deep_views_push(done@, cur);
        }
        done.push(cur);
    }
    done
}

/// `str::lines`.
pub fn lines_exec(s: &Vec<char>) -> (r: Vec<Vec<char>>)
    ensures
        deep_views(r@) == lines(s@),
{
    let mut done: Vec<Vec<char>> = Vec::new();
    let mut cur: Vec<char> = Vec::new();
    let mut i: usize = 0;
    while i < s.len()
        invariant
            0 <= i <= s@.len(),
            (deep_views(done@), cur@) == lines_scan(s@.take(i as int)),
        decreases s@.len() - i,
    {
        let c = s[i];
        proof {
            assert(s@.take(i + 1).drop_last() == s@.take(i as int));
            assert(s@.take(i + 1).last() == c);
        }
        if c == '\n' {
            let line = strip_cr_exec(cur);
            proof {
                lemma_deep_views_push(done@, line);
            }
            done.push(line);
            cur = Vec::new();
        } else {
            cur.push(c);
        }
        i = i + 1;
    }
    proof {
        assert(s@.take(s@.len() as int) == s@);
    }
    if cur.len() > 0 {
        proof {
            lemma_deep_views_push(done@, cur);
        }
        done.push(cur);
    }
    done
}

// ---------------------------------------------------------------------------
// Decimal and hexadecimal numbers.
// ---------------------------------------------------------------------------

pub open spec fn digit_value(c: char) -> nat {
    (c as int - '0' as int) as nat
}

/// The number that a string of decimal digits denotes.
pub open spec fn decimal_value(s: Seq<char>) -> nat
    decreases s.len(),
{
    if s.len() == 0 {
        0
    } else {
        decimal_value(s.drop_last()) * 10 + digit_value(s.last())
    }
}

/// The digits of an unsigned integer literal: an optional leading `+` is dropped.
pub open spec fn unsigned_digits(s: Seq<char>) -> Seq<char> {
    if s.len() > 0 && s[0] == '+' {
        s.skip(1)
    } else {
        s
    }
}

/// What `FromStr` for an unsigned integer type whose largest value is `max`
/// returns: an optional `+`, then one or more ASCII digits whose value does
/// not exceed `max`; anything else is an error (`None`).
pub open spec fn parse_unsigned(s: Seq<char>, max: nat) -> Option<nat> {
    let d = unsigned_digits(s);
    if d.len() > 0 && all_digits(d) && decimal_value(d) <= max {
        Some(decimal_value(d))
    } else {
        None
    }
}

proof fn lemma_decimal_value_prefix_le(d: Seq<char>, i: int)
    requires
        0 <= i <= d.len(),
    ensures
        decimal_value(d.take(i)) <= decimal_value(d),
    decreases d.len(),
{
    if i < d.len() {
        assert(d.take(i) == d.drop_last().take(i));
        lemma_decimal_value_prefix_le(d.drop_last(), i);
        let v = decimal_value(d.drop_last());
        assert(v <= v * 10) by (nonlinear_arith);
    } else {
        assert(d.take(i) == d);
    }
}

/// Parses an unsigned decimal integer no larger than `max`.
pub fn parse_unsigned_exec(s: &Vec<char>, max: u64) -> (r: Option<u64>)
    requires
        max >= 9,
    ensures
        match r {
            Some(v) => parse_unsigned(s@, max as nat) == Some(v as nat),
            None => parse_unsigned(s@, max as nat) is None,
        },
{
    let start: usize = if s.len() > 0 && s[0] == '+' {
        1
    } else {
        0
    };
    let ghost d = unsigned_digits(s@);
    proof {
        assert(d == s@.subrange(start as int, s@.len() as int));
    }
    if start == s.len() {
        return None;
    }
    let mut acc: u64 = 0;
    let mut i: usize = start;
    while i < s.len()
        invariant
            d == unsigned_digits(s@),
            d == s@.subrange(start as int, s@.len() as int),
            start <= i <= s@.len(),
            max >= 9,
            acc as nat == decimal_value(d.take(i - start)),
            acc <= max,
            all_digits(d.take(i - start)),
        decreases s@.len() - i,
    {
        let c = s[i];
        let ghost k = i - start;
        proof {
            assert(d[k] == c);
            assert(d.take(k + 1).drop_last() == d.take(k));
            assert(d.take(k + 1).last() == c);
        }
        if !('0' <= c && c <= '9') {
            proof {
                assert(!is_digit(d[k]));
                assert(!all_digits(d));
            }
            return None;
        }
        let dv: u64 = (c as u32 - '0' as u32) as u64;
        assert(dv <= 9);
        if acc > (max - dv) / 10 {
            proof {
                assert(acc * 10 + dv > max) by (nonlinear_arith)
                    requires
                        acc > (max - dv) / 10,
                        dv <= 9,
                        max >= 9,
                ;
                assert(dv == digit_value(c));
                assert(decimal_value(d.take(k + 1)) == decimal_value(d.take(k)) * 10 + digit_value(c));
                lemma_decimal_value_prefix_le(d, k + 1);
                assert(decimal_value(d) > max);
            }
            return None;
        }
        proof {
            assert(acc * 10 + dv <= max) by (nonlinear_arith)
                requires
                    acc <= (max - dv) / 10,
                    dv <= 9,
                    max >= 9,
            ;
            assert forall|j: int| 0 <= j < k + 1 implies #[trigger] is_digit(d.take(k + 1)[j]) by {
                if j < k {
                    assert(d.take(k + 1)[j] == d.take(k)[j]);
                }
            }
        }
        proof {
            assert(dv == digit_value(c));
            assert(decimal_value(d.take(k + 1)) == decimal_value(d.take(k)) * 10 + digit_value(c));
        }
        acc = acc * 10 + dv;
        i = i + 1;
    }
    proof {
        assert(d.take(i - start) == d);
    }
    Some(acc)
}

pub open spec fn digit_char(d: nat) -> char {
    (d + 48) as char
}

/// The shortest decimal numeral of `n`, as `Display` writes integers.
pub open spec fn decimal_text(n: nat) -> Seq<char>
    decreases n,
{
    if n < 10 {
        seq![digit_char(n)]
    } else {
        decimal_text(n / 10).push(digit_char(n % 10))
    }
}

/// Appends the decimal numeral of `n`.
pub fn push_decimal(out: &mut Vec<char>, n: u64)
    ensures
        final(out)@ == old(out)@ + decimal_text(n as nat),
    decreases n,
{
    if n >= 10 {
        push_decimal(out, n / 10);
    }
    let d: u8 = (n % 10) as u8;
    out.push((48u8 + d) as char);
    proof {
        assert(old(out)@ + decimal_text(n as nat) =~= out@) by {
            if n >= 10 {
                assert(decimal_text(n as nat) == decimal_text((n / 10) as nat).push(digit_char((n % 10) as nat)));
            }
        }
    }
}

/// The decimal numeral of `n` as a string.
pub fn decimal_string(n: u64) -> (s: String)
    ensures
        s@ == decimal_text(n as nat),
{
    let mut v: Vec<char> = Vec::new();
    push_decimal(&mut v, n);
    proof {
        assert(v@ =~= decimal_text(n as nat));
    }
    string_of(&v)
}

pub open spec fn hex_digit(d: nat) -> char {
    if d < 10 {
        digit_char(d)
    } else {
        (d + 87) as char
    }
}

/// The lowest `width` hexadecimal digits of `v`, lower case, most significant
/// first; for `v < 16^width` this is `format!("{:0width$x}", v)`.
pub open spec fn hex_fixed(v: nat, width: nat) -> Seq<char>
    decreases width,
{
    if width == 0 {
        seq![]
    } else {
        hex_fixed(v / 16, (width - 1) as nat).push(hex_digit(v % 16))
    }
}

pub fn push_hex_fixed(out: &mut Vec<char>, v: u64, width: usize)
    ensures
        final(out)@ == old(out)@ + hex_fixed(v as nat, width as nat),
    decreases width,
{
    if width == 0 {
        assert(old(out)@ + hex_fixed(v as nat, 0) =~= out@);
        return;
    }
    push_hex_fixed(out, v / 16, width - 1);
    let d: u8 = (v % 16) as u8;
    if d < 10 {
        out.push((48u8 + d) as char);
    } else {
        out.push((87u8 + d) as char);
    }
    assert(old(out)@ + hex_fixed(v as nat, width as nat) =~= out@);
}

/// Character-by-character equality of two texts.
pub fn eq_chars(a: &Vec<char>, b: &Vec<char>) -> (r: bool)
    ensures
        r == (a@ == b@),
{
    if a.len() != b.len() {
        return false;
    }
    let mut i: usize = 0;
    while i < a.len()
        invariant
            a@.len() == b@.len(),
            0 <= i <= a@.len(),
            forall|j: int| 0 <= j < i ==> a@[j] == b@[j],
        decreases a@.len() - i,
    {
        if a[i] != b[i] {
            return false;
        }
        i = i + 1;
    }
    proof {
        assert(a@ =~= b@);
    }
    true
}

pub fn eq_str(a: &Vec<char>, b: &str) -> (r: bool)
    ensures
        r == (a@ == b@),
{
    let bv = chars_of(b);
    eq_chars(a, &bv)
}

// ---------------------------------------------------------------------------
// Floating-point literals.
// ---------------------------------------------------------------------------

pub open spec fn ascii_lower(c: char) -> char {
    if 'A' <= c && c <= 'Z' {
        (c as int + 32) as char
    } else {
        c
    }
}

/// `s` equals the lower-case word `w` when ASCII letters are lowered.
pub open spec fn equals_ignoring_case(s: Seq<char>, w: Seq<char>) -> bool {
    &&& s.len() == w.len()
    &&& forall|i: int| 0 <= i < s.len() ==> #[trigger] ascii_lower(s[i]) == w[i]
}

pub open spec fn is_sign(c: char) -> bool {
    c == '+' || c == '-'
}

/// Index of the first character equal to `a` or `b`, or the length if none is.
pub open spec fn first_of(s: Seq<char>, a: char, b: char) -> int
    decreases s.len(),
{
    if s.len() == 0 {
        0
    } else if s[0] == a || s[0] == b {
        0
    } else {
        1 + first_of(s.skip(1), a, b)
    }
}

/// `Number` without its exponent: `Digit+ | Digit+ '.' Digit* | Digit* '.' Digit+`
/// (digits hold no dot, so the first dot is the only one).
pub open spec fn float_mantissa(s: Seq<char>) -> bool {
    let q = first_of(s, '.', '.');
    if q == s.len() {
        s.len() > 0 && all_digits(s)
    } else {
        s.len() >= 2 && all_digits(s.take(q)) && all_digits(s.skip(q + 1))
    }
}

/// `Exp ::= 'e' Sign? Digit+` (the `e` in either case).
pub open spec fn float_exponent(s: Seq<char>) -> bool {
    &&& s.len() >= 2
    &&& (s[0] == 'e' || s[0] == 'E')
    &&& (all_digits(s.skip(1)) || (s.len() >= 3 && is_sign(s[1]) && all_digits(s.skip(2))))
}

/// The grammar without the leading sign: `inf`, `infinity`, `nan` in any case,
/// or a number with an optional exponent (a mantissa holds no `e`, so the
/// exponent starts at the first one).
pub open spec fn float_magnitude(s: Seq<char>) -> bool {
    let p = first_of(s, 'e', 'E');
    ||| equals_ignoring_case(s, seq!['i', 'n', 'f'])
    ||| equals_ignoring_case(s, seq!['i', 'n', 'f', 'i', 'n', 'i', 't', 'y'])
    ||| equals_ignoring_case(s, seq!['n', 'a', 'n'])
    ||| (float_mantissa(s.take(p)) && (p == s.len() || float_exponent(s.skip(p))))
}

/// The strings that the standard library's floating-point `FromStr` accepts,
/// by the grammar in its documentation:
/// `Sign? ( 'inf' | 'infinity' | 'nan' | Number )`, no surrounding whitespace.
pub open spec fn float_literal(s: Seq<char>) -> bool {
    ||| float_magnitude(s)
    ||| (s.len() > 0 && is_sign(s[0]) && float_magnitude(s.skip(1)))
}

fn first_of_exec(s: &Vec<char>, a: char, b: char) -> (i: usize)
    ensures
        i as int == first_of(s@, a, b),
        i <= s@.len(),
{
    let mut i: usize = 0;
    proof {
        assert(s@.skip(0) == s@);
    }
    while i < s.len() && s[i] != a && s[i] != b
        invariant
            0 <= i <= s@.len(),
            first_of(s@, a, b) == i + first_of(s@.skip(i as int), a, b),
        decreases s@.len() - i,
    {
        proof {
            assert(s@.skip(i as int).skip(1) == s@.skip(i + 1));
        }
        i = i + 1;
    }
    i
}

fn all_digits_exec(s: &Vec<char>) -> (r: bool)
    ensures
        r == all_digits(s@),
{
    let mut i: usize = 0;
    while i < s.len()
        invariant
            0 <= i <= s@.len(),
            forall|j: int| 0 <= j < i ==> #[trigger] is_digit(s@[j]),
        decreases s@.len() - i,
    {
        if !('0' <= s[i] && s[i] <= '9') {
            proof {
                assert(!is_digit(s@[i as int]));
            }
            return false;
        }
        i = i + 1;
    }
    true
}

fn ascii_lower_exec(c: char) -> (r: char)
    ensures
        r == ascii_lower(c),
{
    if 'A' <= c && c <= 'Z' {
        ((c as u32 + 32) as u8) as char
    } else {
        c
    }
}

fn equals_ignoring_case_exec(s: &Vec<char>, w: &str) -> (r: bool)
    ensures
        r == equals_ignoring_case(s@, w@),
{
    let wv = chars_of(w);
    if s.len() != wv.len() {
        return false;
    }
    let mut i: usize = 0;
    while i < s.len()
        invariant
            wv@ == w@,
            s@.len() == wv@.len(),
            0 <= i <= s@.len(),
            forall|j: int| 0 <= j < i ==> #[trigger] ascii_lower(s@[j]) == wv@[j],
        decreases s@.len() - i,
    {
        if ascii_lower_exec(s[i]) != wv[i] {
            return false;
        }
        i = i + 1;
    }
    true
}

fn float_mantissa_exec(s: &Vec<char>) -> (r: bool)
    ensures
        r == float_mantissa(s@),
{
    let q = first_of_exec(s, '.', '.');
    if q == s.len() {
        s.len() > 0 && all_digits_exec(s)
    } else {
        let head = copy_range(s, 0, q);
        let tail = copy_range(s, q + 1, s.len());
        proof {
            assert(s@.take(q as int) == s@.subrange(0, q as int));
            assert(s@.skip(q + 1) == s@.subrange(q + 1, s@.len() as int));
        }
        s.len() >= 2 && all_digits_exec(&head) && all_digits_exec(&tail)
    }
}

fn float_exponent_exec(s: &Vec<char>) -> (r: bool)
    ensures
        r == float_exponent(s@),
{
    if s.len() < 2 || !(s[0] == 'e' || s[0] == 'E') {
        return false;
    }
    let rest = copy_range(s, 1, s.len());
    proof {
        assert(s@.skip(1) == s@.subrange(1, s@.len() as int));
    }
    if all_digits_exec(&rest) {
        return true;
    }
    if s.len() >= 3 && (s[1] == '+' || s[1] == '-') {
        let digits = copy_range(s, 2, s.len());
        proof {
            assert(s@.skip(2) == s@.subrange(2, s@.len() as int));
        }
        all_digits_exec(&digits)
    } else {
        false
    }
}

fn float_magnitude_exec(s: &Vec<char>) -> (r: bool)
    ensures
        r == float_magnitude(s@),
{
    if equals_ignoring_case_exec(s, "inf") || equals_ignoring_case_exec(s, "infinity")
        || equals_ignoring_case_exec(s, "nan") {
        proof {
            reveal_strlit("inf");
            reveal_strlit("infinity");
            reveal_strlit("nan");
            assert("inf"@ == seq!['i', 'n', 'f']);
            assert("infinity"@ == seq!['i', 'n', 'f', 'i', 'n', 'i', 't', 'y']);
            assert("nan"@ == seq!['n', 'a', 'n']);
        }
        return true;
    }
    proof {
        reveal_strlit("inf");
        reveal_strlit("infinity");
        reveal_strlit("nan");
        assert("inf"@ == seq!['i', 'n', 'f']);
        assert("infinity"@ == seq!['i', 'n', 'f', 'i', 'n', 'i', 't', 'y']);
        assert("nan"@ == seq!['n', 'a', 'n']);
    }
    let p = first_of_exec(s, 'e', 'E');
    let mantissa = copy_range(s, 0, p);
    proof {
        assert(s@.take(p as int) == s@.subrange(0, p as int));
    }
    if !float_mantissa_exec(&mantissa) {
        return false;
    }
    if p == s.len() {
        return true;
    }
    let exponent = copy_range(s, p, s.len());
    proof {
        assert(s@.skip(p as int) == s@.subrange(p as int, s@.len() as int));
    }
    float_exponent_exec(&exponent)
}

/// Whether `s` reads as a floating-point number.
pub fn is_float_literal(s: &Vec<char>) -> (r: bool)
    ensures
        r == float_literal(s@),
{
    if float_magnitude_exec(s) {
        return true;
    }
    if s.len() > 0 && (s[0] == '+' || s[0] == '-') {
        let rest = copy_range(s, 1, s.len());
        proof {
            assert(s@.skip(1) == s@.subrange(1, s@.len() as int));
        }
        float_magnitude_exec(&rest)
    } else {
        false
    }
}

// ---------------------------------------------------------------------------
// Laws.
// ---------------------------------------------------------------------------

pub proof fn lemma_decimal_text_digits(n: nat)
    ensures
        decimal_text(n).len() > 0,
        all_digits(decimal_text(n)),
        decimal_value(decimal_text(n)) == n,
    decreases n,
{
    if n >= 10 {
        lemma_decimal_text_digits(n / 10);
        let t = decimal_text(n);
        let before = decimal_text(n / 10);
        assert(t.drop_last() == before);
        assert forall|i: int| 0 <= i < t.len() implies #[trigger] is_digit(t[i]) by {
            if i < before.len() {
                assert(t[i] == before[i]);
            }
        }
        assert(digit_value(digit_char(n % 10)) == n % 10);
        assert(decimal_value(t) == decimal_value(before) * 10 + digit_value(t.last()));
    } else {
        let t = decimal_text(n);
        assert(digit_value(digit_char(n)) == n);
        assert(t.drop_last().len() == 0);
        assert(decimal_value(t) == decimal_value(t.drop_last()) * 10 + digit_value(t.last()));
    }
}

/// A number written in decimal reads back as that number.
pub proof fn law_decimal_round_trip(n: nat, max: nat)
    requires
        n <= max,
    ensures
        parse_unsigned(decimal_text(n), max) == Some(n),
{
    lemma_decimal_text_digits(n);
    let t = decimal_text(n);
    assert(is_digit(t[0]));
    assert(unsigned_digits(t) == t);
}

} // verus!
