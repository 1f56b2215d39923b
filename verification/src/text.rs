//! Character sequences: searching, splitting, joining and decimal numbers.
//!
//! Every contract in this crate speaks of text as a `Seq<char>`, the view of a
//! `String` or `&str`. The executable functions work on `&[char]`, so that a
//! position is an index and a scan is linear.

use vstd::prelude::*;
use vstd::slice::slice_subrange;
use vstd::string::StringExecFns;

verus! {

/// A name and a value, as headers and query parameters have them.
pub type Pair = (Seq<char>, Seq<char>);

/// std's `String::push`: afterwards the string is what it was before, with
/// `ch` added at its end.
pub assume_specification[ String::push ](s: &mut String, ch: char)
    ensures
        final(s)@ == old(s)@.push(ch),
;

// ---------------------------------------------------------------------------
// Searching
// ---------------------------------------------------------------------------

/// Position of the first `c` in `s`, or `s.len()` when `s` holds none.
pub open spec fn index_of(s: Seq<char>, c: char) -> int
    decreases s.len(),
{
    if s.len() == 0 {
        0
    } else if s[0] == c {
        0
    } else {
        1 + index_of(s.drop_first(), c)
    }
}

/// `pat` stands in `s` at position `i`.
pub open spec fn occurs_at(s: Seq<char>, pat: Seq<char>, i: int) -> bool {
    0 <= i && i + pat.len() <= s.len() && s.subrange(i, i + pat.len()) == pat
}

/// Position of the first occurrence of `pat` in `s`, or `s.len()` when there is
/// none.
pub open spec fn find_text(s: Seq<char>, pat: Seq<char>) -> int
    decreases s.len(),
{
    if occurs_at(s, pat, 0) {
        0
    } else if s.len() == 0 {
        0
    } else {
        1 + find_text(s.drop_first(), pat)
    }
}

/// `index_of` is in range, points at a `c` when it is below the length, and
/// nothing before it is a `c`.
pub proof fn lemma_index_of(s: Seq<char>, c: char)
    ensures
        0 <= index_of(s, c) <= s.len(),
        index_of(s, c) < s.len() ==> s[index_of(s, c)] == c,
        forall|j: int| 0 <= j < index_of(s, c) ==> s[j] != c,
        index_of(s, c) < s.len() <==> s.contains(c),
    decreases s.len(),
{
    if s.len() > 0 && s[0] != c {
        let t = s.drop_first();
        lemma_index_of(t, c);
        assert forall|j: int| 0 <= j < index_of(s, c) implies s[j] != c by {
            if j > 0 {
                assert(s[j] == t[j - 1]);
            }
        }
        if index_of(s, c) < s.len() {
            assert(s[index_of(s, c)] == t[index_of(t, c)]);
        }
    }
    let i = index_of(s, c);
    if i < s.len() {
        assert(s[i] == c);
    } else {
        assert(!s.contains(c));
    }
}

/// The position that `lemma_index_of` describes is the only one.
pub proof fn lemma_index_of_unique(s: Seq<char>, c: char, i: int)
    requires
        0 <= i <= s.len(),
        i < s.len() ==> s[i] == c,
        forall|j: int| 0 <= j < i ==> s[j] != c,
    ensures
        index_of(s, c) == i,
{
    lemma_index_of(s, c);
    let k = index_of(s, c);
    if k < i {
        assert(s[k] != c);
    }
}

/// `find_text` is in range, points at an occurrence when it is below the
/// length, and no occurrence starts before it.
pub proof fn lemma_find_text(s: Seq<char>, pat: Seq<char>)
    requires
        pat.len() > 0,
    ensures
        0 <= find_text(s, pat) <= s.len(),
        find_text(s, pat) < s.len() ==> occurs_at(s, pat, find_text(s, pat)),
        forall|j: int| 0 <= j < find_text(s, pat) ==> !occurs_at(s, pat, j),
    decreases s.len(),
{
    if !occurs_at(s, pat, 0) && s.len() > 0 {
        let t = s.drop_first();
        lemma_find_text(t, pat);
        assert forall|j: int| occurs_at(t, pat, j) == occurs_at(s, pat, j + 1) by {
            if 0 <= j && j + pat.len() <= t.len() {
                assert(t.subrange(j, j + pat.len()) =~= s.subrange(j + 1, j + 1 + pat.len()));
            }
        }
        assert forall|j: int| 0 <= j < find_text(s, pat) implies !occurs_at(s, pat, j) by {
            if j > 0 {
                assert(occurs_at(t, pat, j - 1) == occurs_at(s, pat, j));
            }
        }
    }
}

/// The position that `lemma_find_text` describes is the only one.
pub proof fn lemma_find_text_unique(s: Seq<char>, pat: Seq<char>, i: int)
    requires
        pat.len() > 0,
        0 <= i <= s.len(),
        i < s.len() ==> occurs_at(s, pat, i),
        forall|j: int| 0 <= j < i ==> !occurs_at(s, pat, j),
    ensures
        find_text(s, pat) == i,
{
    lemma_find_text(s, pat);
    let k = find_text(s, pat);
    if k < i {
        assert(!occurs_at(s, pat, k));
    }
}

/// The first occurrence of `pat` in `a + pat + b` is at the end of `a`, when
/// `a` does not hold the first character of `pat`.
pub proof fn lemma_find_text_concat(a: Seq<char>, pat: Seq<char>, b: Seq<char>)
    requires
        pat.len() > 0,
        !a.contains(pat[0]),
    ensures
        find_text(a + pat + b, pat) == a.len(),
        a.len() < (a + pat + b).len(),
{
    let s = a + pat + b;
    assert(s.subrange(a.len() as int, (a.len() + pat.len()) as int) =~= pat);
    assert forall|j: int| 0 <= j < a.len() implies !occurs_at(s, pat, j) by {
        if occurs_at(s, pat, j) {
            assert(s.subrange(j, j + pat.len())[0] == pat[0]);
            assert(s[j] == a[j]);
            assert(a.contains(a[j]));
        }
    }
    lemma_find_text_unique(s, pat, a.len() as int);
}

/// The characters of `s`, in order.
pub fn to_chars(s: &str) -> (v: Vec<char>)
    ensures
        v@ == s@,
{
    let mut v: Vec<char> = Vec::new();
    for c in it: s.chars()
        invariant
            v@ == it.seq().take(it.index() as int),
            it.seq() == s@,
    {
        v.push(c);
    }
    v
}

/// The text whose characters are those of `s`.
pub fn from_chars(s: &[char]) -> (out: String)
    ensures
        out@ == s@,
{
    let mut out = String::new();
    let mut i: usize = 0;
    while i < s.len()
        invariant
            i <= s.len(),
            out@ == s@.take(i as int),
        decreases s.len() - i,
    {
        out.push(s[i]);
        i += 1;
    }
    out
}

/// Finds the first `c` in `s`.
pub fn find_char(s: &[char], c: char) -> (i: usize)
    ensures
        i == index_of(s@, c),
        i <= s@.len(),
{
    let mut i: usize = 0;
    while i < s.len()
        invariant
            i <= s.len(),
            forall|j: int| 0 <= j < i ==> s@[j] != c,
        decreases s.len() - i,
    {
        if s[i] == c {
            proof {
                lemma_index_of_unique(s@, c, i as int);
            }
            return i;
        }
        i += 1;
    }
    proof {
        lemma_index_of_unique(s@, c, i as int);
    }
    i
}

/// Tells whether `pat` stands in `s` at position `i`.
pub fn matches_at(s: &[char], pat: &[char], i: usize) -> (b: bool)
    ensures
        b == occurs_at(s@, pat@, i as int),
{
    if pat.len() > s.len() || i > s.len() - pat.len() {
        return false;
    }
    let mut k: usize = 0;
    while k < pat.len()
        invariant
            k <= pat.len(),
            i + pat.len() <= s.len(),
            forall|j: int| 0 <= j < k ==> s@[i + j] == pat@[j],
        decreases pat.len() - k,
    {
        if s[i + k] != pat[k] {
            assert(s@.subrange(i as int, i + pat@.len())[k as int] != pat@[k as int]);
            return false;
        }
        k += 1;
    }
    assert(s@.subrange(i as int, i + pat@.len()) =~= pat@);
    true
}

/// Finds the first occurrence of `pat` in `s`.
pub fn find_sub(s: &[char], pat: &[char]) -> (i: usize)
    ensures
        i == find_text(s@, pat@),
        i <= s@.len(),
        i < s@.len() ==> i + pat@.len() <= s@.len(),
{
    if pat.len() == 0 {
        assert(s@.subrange(0, 0) =~= pat@);
        return 0;
    }
    let mut i: usize = 0;
    while i < s.len()
        invariant
            i <= s.len(),
            pat@.len() > 0,
            forall|j: int| 0 <= j < i ==> !occurs_at(s@, pat@, j),
        decreases s.len() - i,
    {
        if matches_at(s, pat, i) {
            proof {
                lemma_find_text_unique(s@, pat@, i as int);
            }
            return i;
        }
        i += 1;
    }
    proof {
        lemma_find_text_unique(s@, pat@, i as int);
    }
    i
}

// ---------------------------------------------------------------------------
// Cutting at a separator
// ---------------------------------------------------------------------------

/// The part of `s` before its first `c`: all of `s` when it holds none.
pub open spec fn before(s: Seq<char>, c: char) -> Seq<char> {
    s.take(index_of(s, c))
}

/// The part of `s` after its first `c`: empty when it holds none.
pub open spec fn after(s: Seq<char>, c: char) -> Seq<char> {
    if index_of(s, c) < s.len() {
        s.skip(index_of(s, c) + 1)
    } else {
        Seq::empty()
    }
}

/// The part of `s` before the first occurrence of `pat`: all of `s` when
/// there is none.
pub open spec fn before_text(s: Seq<char>, pat: Seq<char>) -> Seq<char> {
    s.take(find_text(s, pat))
}

/// The part of `s` after the first occurrence of `pat`: empty when there is
/// none.
pub open spec fn after_text(s: Seq<char>, pat: Seq<char>) -> Seq<char> {
    if find_text(s, pat) < s.len() {
        s.skip(find_text(s, pat) + pat.len())
    } else {
        Seq::empty()
    }
}

/// The pieces of `s` between its occurrences of `c`. There is always at
/// least one piece; `n` occurrences give `n + 1` pieces, empty ones included.
pub open spec fn pieces(s: Seq<char>, c: char) -> Seq<Seq<char>>
    decreases s.len(),
{
    let i = index_of(s, c);
    if 0 <= i < s.len() {
        seq![s.take(i)] + pieces(s.skip(i + 1), c)
    } else {
        seq![s]
    }
}

/// The texts of `parts` in order, with one `c` between each two neighbours.
pub open spec fn joined(parts: Seq<Seq<char>>, c: char) -> Seq<char>
    decreases parts.len(),
{
    if parts.len() == 0 {
        Seq::empty()
    } else if parts.len() == 1 {
        parts[0]
    } else {
        parts[0] + seq![c] + joined(parts.drop_first(), c)
    }
}

/// The character sequences that a vector of slices stands for.
pub open spec fn slice_texts(v: Seq<&[char]>) -> Seq<Seq<char>> {
    Seq::new(v.len(), |i: int| v[i]@)
}

/// The character sequences that a vector of strings stands for.
pub open spec fn string_texts(v: Seq<String>) -> Seq<Seq<char>> {
    Seq::new(v.len(), |i: int| v[i]@)
}

/// No piece holds the separator, and there is at least one piece.
pub proof fn lemma_pieces(s: Seq<char>, c: char)
    ensures
        pieces(s, c).len() >= 1,
        forall|k: int| 0 <= k < pieces(s, c).len() ==> !(#[trigger] pieces(s, c)[k]).contains(c),
        pieces(s, c)[0] == before(s, c),
    decreases s.len(),
{
    lemma_index_of(s, c);
    let i = index_of(s, c);
    if i < s.len() {
        let rest = s.skip(i + 1);
        lemma_pieces(rest, c);
        let head = s.take(i);
        assert(!head.contains(c)) by {
            if head.contains(c) {
                let j = choose|j: int| 0 <= j < head.len() && head[j] == c;
                assert(s[j] == c);
            }
        }
        assert forall|k: int| 0 <= k < pieces(s, c).len() implies !(#[trigger] pieces(
            s,
            c,
        )[k]).contains(c) by {
            if k > 0 {
                assert(pieces(s, c)[k] == pieces(rest, c)[k - 1]);
            }
        }
    }
}

/// A text that starts with a piece free of `c`, followed by `c`, splits into
/// that piece and the pieces of what follows.
pub proof fn lemma_pieces_cons(a: Seq<char>, b: Seq<char>, c: char)
    requires
        !a.contains(c),
    ensures
        pieces(a + seq![c] + b, c) == seq![a] + pieces(b, c),
{
    lemma_cut(a, c, b);
}

/// A text free of `c` is its own single piece.
pub proof fn lemma_pieces_single(a: Seq<char>, c: char)
    requires
        !a.contains(c),
    ensures
        pieces(a, c) == seq![a],
{
    lemma_index_of(a, c);
}

/// Splitting what was joined gives the parts back, when no part holds the
/// separator and there is at least one part.
pub proof fn lemma_pieces_of_joined(parts: Seq<Seq<char>>, c: char)
    requires
        parts.len() >= 1,
        forall|k: int| 0 <= k < parts.len() ==> !(#[trigger] parts[k]).contains(c),
    ensures
        pieces(joined(parts, c), c) == parts,
    decreases parts.len(),
{
    if parts.len() == 1 {
        lemma_pieces_single(parts[0], c);
        assert(parts =~= seq![parts[0]]);
    } else {
        let tail = parts.drop_first();
        assert forall|k: int| 0 <= k < tail.len() implies !(#[trigger] tail[k]).contains(c) by {
            assert(tail[k] == parts[k + 1]);
        }
        lemma_pieces_of_joined(tail, c);
        lemma_pieces_cons(parts[0], joined(tail, c), c);
        assert(seq![parts[0]] + tail =~= parts);
    }
}

/// Joining the pieces of a text gives the text back.
pub proof fn lemma_joined_pieces(s: Seq<char>, c: char)
    ensures
        joined(pieces(s, c), c) == s,
    decreases s.len(),
{
    lemma_index_of(s, c);
    let i = index_of(s, c);
    if i < s.len() {
        let rest = s.skip(i + 1);
        lemma_joined_pieces(rest, c);
        lemma_pieces(rest, c);
        let p = pieces(s, c);
        assert(p.drop_first() =~= pieces(rest, c));
        assert(p[0] == s.take(i));
        assert(s.take(i) + seq![c] + rest =~= s);
    }
}

/// A character is in `a + b` when it is in `a` or in `b`.
pub proof fn lemma_contains_concat(a: Seq<char>, b: Seq<char>, c: char)
    ensures
        (a + b).contains(c) <==> (a.contains(c) || b.contains(c)),
{
    let ab = a + b;
    if a.contains(c) {
        let i = choose|i: int| 0 <= i < a.len() && a[i] == c;
        assert(ab[i] == c);
    }
    if b.contains(c) {
        let i = choose|i: int| 0 <= i < b.len() && b[i] == c;
        assert(ab[a.len() + i] == c);
    }
    if ab.contains(c) {
        let i = choose|i: int| 0 <= i < ab.len() && ab[i] == c;
        if i < a.len() {
            assert(a[i] == c);
        } else {
            assert(b[i - a.len()] == c);
        }
    }
}

/// A character of a part of `s` is a character of `s`.
pub proof fn lemma_contains_part(s: Seq<char>, from: int, to: int, c: char)
    requires
        0 <= from <= to <= s.len(),
        s.subrange(from, to).contains(c),
    ensures
        s.contains(c),
{
    let part = s.subrange(from, to);
    let i = choose|i: int| 0 <= i < part.len() && part[i] == c;
    assert(s[from + i] == c);
}

/// What stands before the first `c` holds no `c`; neither it nor what stands
/// after holds a character that `s` does not hold.
pub proof fn lemma_cut_parts(s: Seq<char>, c: char, d: char)
    ensures
        !before(s, c).contains(c),
        before(s, c).contains(d) ==> s.contains(d),
        after(s, c).contains(d) ==> s.contains(d),
{
    lemma_index_of(s, c);
    let i = index_of(s, c);
    let head = before(s, c);
    if head.contains(c) {
        let j = choose|j: int| 0 <= j < head.len() && head[j] == c;
        assert(s[j] == c);
    }
    if head.contains(d) {
        lemma_contains_part(s, 0, i, d);
    }
    if after(s, c).contains(d) {
        if i < s.len() {
            lemma_contains_part(s, i + 1, s.len() as int, d);
        } else {
            let tail = after(s, c);
            let j = choose|j: int| 0 <= j < tail.len() && tail[j] == d;
        }
    }
}

/// Cutting `a + c + b` at its first `c` gives `a` and `b`, when `a` holds no
/// `c`.
pub proof fn lemma_cut(a: Seq<char>, c: char, b: Seq<char>)
    requires
        !a.contains(c),
    ensures
        index_of(a + seq![c] + b, c) == a.len(),
        (a + seq![c] + b).contains(c),
        before(a + seq![c] + b, c) == a,
        after(a + seq![c] + b, c) == b,
{
    let s = a + seq![c] + b;
    assert(s[a.len() as int] == c);
    assert forall|j: int| 0 <= j < a.len() implies s[j] != c by {
        assert(s[j] == a[j]);
        assert(a.contains(a[j]));
    }
    lemma_index_of_unique(s, c, a.len() as int);
    assert(s.take(a.len() as int) =~= a);
    assert(s.skip(a.len() as int + 1) =~= b);
}

/// A text without `c` has all of itself before the first `c` and nothing
/// after.
pub proof fn lemma_cut_none(a: Seq<char>, c: char)
    requires
        !a.contains(c),
    ensures
        index_of(a, c) == a.len(),
        before(a, c) == a,
        after(a, c) == Seq::<char>::empty(),
{
    lemma_index_of(a, c);
    assert(a.take(a.len() as int) =~= a);
}

/// Joining texts that hold no `d`, with a separator other than `d`, gives a
/// text that holds no `d`.
pub proof fn lemma_joined_free(parts: Seq<Seq<char>>, c: char, d: char)
    requires
        d != c,
        forall|k: int| 0 <= k < parts.len() ==> !(#[trigger] parts[k]).contains(d),
    ensures
        !joined(parts, c).contains(d),
    decreases parts.len(),
{
    if parts.len() == 0 {
        let e = joined(parts, c);
        if e.contains(d) {
            let j = choose|j: int| 0 <= j < e.len() && e[j] == d;
        }
    } else if parts.len() == 1 {
        assert(!parts[0].contains(d));
    } else {
        let tail = parts.drop_first();
        assert forall|k: int| 0 <= k < tail.len() implies !(#[trigger] tail[k]).contains(d) by {
            assert(tail[k] == parts[k + 1]);
        }
        lemma_joined_free(tail, c, d);
        assert(!parts[0].contains(d));
        let sep = seq![c];
        if sep.contains(d) {
            let j = choose|j: int| 0 <= j < sep.len() && sep[j] == d;
        }
        lemma_contains_concat(parts[0], sep, d);
        lemma_contains_concat(parts[0] + sep, joined(tail, c), d);
    }
}

/// What is added after joined parts is added to the last part.
pub proof fn lemma_joined_last(parts: Seq<Seq<char>>, c: char, x: Seq<char>)
    requires
        parts.len() >= 1,
    ensures
        joined(parts, c) + x == joined(parts.update(parts.len() - 1, parts.last() + x), c),
    decreases parts.len(),
{
    let changed = parts.update(parts.len() - 1, parts.last() + x);
    if parts.len() == 1 {
        assert(changed[0] == parts[0] + x);
    } else {
        let tail = parts.drop_first();
        lemma_joined_last(tail, c, x);
        assert(changed.drop_first() =~= tail.update(tail.len() - 1, tail.last() + x));
        assert(changed[0] == parts[0]);
        assert(tail.last() == parts.last());
        assert((parts[0] + seq![c] + joined(tail, c)) + x =~= parts[0] + seq![c] + (joined(tail, c)
            + x));
    }
}

/// A piece of `s` holds only characters that `s` holds.
pub proof fn lemma_pieces_chars(s: Seq<char>, c: char, d: char)
    ensures
        forall|k: int|
            0 <= k < pieces(s, c).len() && (#[trigger] pieces(s, c)[k]).contains(d) ==> s.contains(
                d,
            ),
    decreases s.len(),
{
    lemma_index_of(s, c);
    let i = index_of(s, c);
    if i < s.len() {
        let rest = s.skip(i + 1);
        lemma_pieces_chars(rest, c, d);
        assert forall|k: int|
            0 <= k < pieces(s, c).len() && (#[trigger] pieces(s, c)[k]).contains(
                d,
            ) implies s.contains(d) by {
            if k == 0 {
                lemma_contains_part(s, 0, i, d);
            } else {
                assert(pieces(s, c)[k] == pieces(rest, c)[k - 1]);
                lemma_contains_part(s, i + 1, s.len() as int, d);
            }
        }
    }
}

/// A text with a single piece holds no separator.
pub proof fn lemma_pieces_one(s: Seq<char>, c: char)
    requires
        pieces(s, c).len() == 1,
    ensures
        !s.contains(c),
        pieces(s, c) == seq![s],
{
    lemma_index_of(s, c);
    let i = index_of(s, c);
    if i < s.len() {
        lemma_pieces(s.skip(i + 1), c);
    }
}

/// Tells whether two slices hold the same characters.
pub fn same_text(a: &[char], b: &[char]) -> (r: bool)
    ensures
        r == (a@ == b@),
{
    if a.len() != b.len() {
        return false;
    }
    let r = matches_at(a, b, 0);
    assert(a@.subrange(0, a@.len() as int) =~= a@);
    r
}

/// The part of `s` before its first `c`.
pub fn cut_before<'a>(s: &'a [char], c: char) -> (r: &'a [char])
    ensures
        r@ == before(s@, c),
{
    let i = find_char(s, c);
    let r = slice_subrange(s, 0, i);
    assert(r@ =~= s@.take(i as int));
    r
}

/// The part of `s` after its first `c`.
pub fn cut_after<'a>(s: &'a [char], c: char) -> (r: &'a [char])
    ensures
        r@ == after(s@, c),
{
    let i = find_char(s, c);
    if i < s.len() {
        let r = slice_subrange(s, i + 1, s.len());
        assert(r@ =~= s@.skip(i + 1));
        r
    } else {
        let r = slice_subrange(s, 0, 0);
        assert(r@ =~= Seq::<char>::empty());
        r
    }
}

/// The part of `s` before the first occurrence of `pat`.
pub fn cut_before_text<'a>(s: &'a [char], pat: &[char]) -> (r: &'a [char])
    ensures
        r@ == before_text(s@, pat@),
{
    let i = find_sub(s, pat);
    let r = slice_subrange(s, 0, i);
    assert(r@ =~= s@.take(i as int));
    r
}

/// The part of `s` after the first occurrence of `pat`.
pub fn cut_after_text<'a>(s: &'a [char], pat: &[char]) -> (r: &'a [char])
    ensures
        r@ == after_text(s@, pat@),
{
    let i = find_sub(s, pat);
    if i < s.len() {
        let r = slice_subrange(s, i + pat.len(), s.len());
        assert(r@ =~= s@.skip(i + pat@.len()));
        r
    } else {
        let r = slice_subrange(s, 0, 0);
        assert(r@ =~= Seq::<char>::empty());
        r
    }
}

/// Tells whether `s` holds a `c`.
pub fn has_char(s: &[char], c: char) -> (r: bool)
    ensures
        r == s@.contains(c),
{
    let i = find_char(s, c);
    proof {
        lemma_index_of(s@, c);
    }
    i < s.len()
}

/// Cuts `s` at every `c`. The slices borrow from `s`.
pub fn split<'a>(s: &'a [char], c: char) -> (out: Vec<&'a [char]>)
    ensures
        slice_texts(out@) == pieces(s@, c),
        out@.len() >= 1,
{
    let mut out: Vec<&'a [char]> = Vec::new();
    let mut rest: &'a [char] = s;
    loop
        invariant_except_break
            pieces(s@, c) == slice_texts(out@) + pieces(rest@, c),
        ensures
            slice_texts(out@) == pieces(s@, c),
            out@.len() >= 1,
        decreases rest@.len(),
    {
        let i = find_char(rest, c);
        let ghost done = slice_texts(out@);
        if i < rest.len() {
            let head = slice_subrange(rest, 0, i);
            let tail = slice_subrange(rest, i + 1, rest.len());
            proof {
                assert(head@ =~= rest@.take(i as int));
                assert(tail@ =~= rest@.skip(i + 1));
            }
            out.push(head);
            proof {
                assert(slice_texts(out@) =~= done + seq![head@]);
                assert(done + (seq![head@] + pieces(tail@, c)) =~= (done + seq![head@]) + pieces(
                    tail@,
                    c,
                ));
            }
            rest = tail;
        } else {
            out.push(rest);
            proof {
                assert(slice_texts(out@) =~= done + seq![rest@]);
            }
            break ;
        }
    }
    out
}

/// Appends the texts of `parts` to `out`, with one `c` between each two
/// neighbours.
pub fn push_joined(out: &mut String, parts: &Vec<String>, c: char)
    ensures
        final(out)@ == old(out)@ + joined(string_texts(parts@), c),
{
    let ghost texts = string_texts(parts@);
    let mut i: usize = 0;
    while i < parts.len()
        invariant
            i <= parts.len(),
            texts == string_texts(parts@),
            old(out)@ + joined(texts, c) == out@ + (if i == 0 {
                joined(texts, c)
            } else if i < parts.len() {
                seq![c] + joined(texts.skip(i as int), c)
            } else {
                Seq::empty()
            }),
        decreases parts.len() - i,
    {
        let ghost here = texts.skip(i as int);
        let ghost before_push = out@;
        proof {
            assert(here[0] == parts@[i as int]@);
            assert(here.drop_first() =~= texts.skip(i + 1));
            if i == 0 {
                assert(here =~= texts);
            }
        }
        if i > 0 {
            out.push(c);
        }
        append_str(out, parts[i].as_str());
        proof {
            let piece = parts@[i as int]@;
            if here.len() == 1 {
                assert(joined(here, c) == piece);
            } else {
                assert(joined(here, c) == piece + seq![c] + joined(texts.skip(i + 1), c));
            }
            if i == 0 {
                assert(out@ == before_push + piece);
                assert(before_push + joined(here, c) =~= out@ + (if i + 1 < parts.len() {
                    seq![c] + joined(texts.skip(i + 1), c)
                } else {
                    Seq::empty()
                }));
            } else {
                assert(out@ == before_push.push(c) + piece);
                assert(before_push + (seq![c] + joined(here, c)) =~= out@ + (if i + 1
                    < parts.len() {
                    seq![c] + joined(texts.skip(i + 1), c)
                } else {
                    Seq::empty()
                }));
            }
        }
        i += 1;
    }
    proof {
        if parts.len() == 0 {
            assert(joined(texts, c) =~= Seq::<char>::empty());
        }
        assert(out@ + Seq::<char>::empty() =~= out@);
    }
}

/// Appends `text` to `out`.
pub fn append_str(out: &mut String, text: &str)
    ensures
        final(out)@ == old(out)@ + text@,
{
    out.append(text);
}

// ---------------------------------------------------------------------------
// Decimal numbers
// ---------------------------------------------------------------------------

/// `c` is one of `0` to `9`.
pub open spec fn is_digit(c: char) -> bool {
    '0' <= c && c <= '9'
}

/// The number that the digit `c` stands for.
pub open spec fn digit_value(c: char) -> int {
    c as int - '0' as int
}

/// The digit that stands for `d`, for `d` from 0 to 9.
pub open spec fn digit_char(d: int) -> char {
    (('0' as u8) + d) as u8 as char
}

/// Every character of `s` is a digit.
pub open spec fn all_digits(s: Seq<char>) -> bool {
    forall|i: int| 0 <= i < s.len() ==> is_digit(#[trigger] s[i])
}

/// The number that a run of digits stands for, read in base ten. Zero for the
/// empty run.
pub open spec fn digits_value(s: Seq<char>) -> int
    decreases s.len(),
{
    if s.len() == 0 {
        0
    } else {
        digits_value(s.drop_last()) * 10 + digit_value(s.last())
    }
}

/// The number that the numeral `s` stands for, when `s` is a numeral for a
/// number up to `max`: an optional `+`, then one or more digits and nothing
/// else. Leading zeros are allowed. A sign alone, an empty text, blanks or a
/// `-` make no numeral.
pub open spec fn decimal_value(s: Seq<char>, max: int) -> Option<int> {
    let digits = if s.len() > 0 && s[0] == '+' {
        s.skip(1)
    } else {
        s
    };
    if digits.len() > 0 && all_digits(digits) && digits_value(digits) <= max {
        Some(digits_value(digits))
    } else {
        None
    }
}

/// The shortest numeral for `n`: its digits, most significant first, with no
/// sign and no leading zero (but `0` itself).
pub open spec fn decimal(n: nat) -> Seq<char>
    decreases n,
{
    if n < 10 {
        seq![digit_char(n as int)]
    } else {
        decimal(n / 10).push(digit_char((n % 10) as int))
    }
}

/// The value of a run of digits is at least the value of each of its
/// prefixes, and never negative.
pub proof fn lemma_digits_value_prefix(s: Seq<char>, k: int)
    requires
        all_digits(s),
        0 <= k <= s.len(),
    ensures
        0 <= digits_value(s.take(k)) <= digits_value(s),
    decreases s.len(),
{
    if s.len() == 0 {
        assert(s.take(k) =~= s);
    } else {
        let init = s.drop_last();
        assert(is_digit(s.last()));
        assert forall|i: int| 0 <= i < init.len() implies is_digit(#[trigger] init[i]) by {
            assert(init[i] == s[i]);
        }
        if k == s.len() {
            assert(s.take(k) =~= s);
            lemma_digits_value_prefix(init, 0);
        } else {
            lemma_digits_value_prefix(init, k);
            assert(init.take(k) =~= s.take(k));
        }
    }
}

/// Reading the numeral written for `n` gives `n`.
pub proof fn lemma_decimal_value_of_decimal(n: nat, max: int)
    requires
        n <= max,
    ensures
        decimal_value(decimal(n), max) == Some(n as int),
        decimal(n).len() >= 1,
        all_digits(decimal(n)),
{
    lemma_decimal(n);
    let s = decimal(n);
    assert(is_digit(s[0]));
}

/// The numeral written for `n` is a non-empty run of digits whose value is `n`.
pub proof fn lemma_decimal(n: nat)
    ensures
        decimal(n).len() >= 1,
        all_digits(decimal(n)),
        digits_value(decimal(n)) == n,
    decreases n,
{
    let s = decimal(n);
    if n < 10 {
        assert(s.drop_last() =~= Seq::<char>::empty());
        assert(digits_value(s) == digits_value(s.drop_last()) * 10 + digit_value(s.last()));
    } else {
        lemma_decimal(n / 10);
        let init = decimal(n / 10);
        assert(s.drop_last() =~= init);
        assert(s.last() == digit_char((n % 10) as int));
        assert forall|i: int| 0 <= i < s.len() implies is_digit(#[trigger] s[i]) by {
            if i < init.len() {
                assert(s[i] == init[i]);
            }
        }
    }
}

/// Reads a numeral for a number up to `max`.
pub fn parse_decimal(s: &[char], max: u64) -> (r: Option<u64>)
    ensures
        match r {
            Some(n) => decimal_value(s@, max as int) == Some(n as int) && n <= max,
            None => decimal_value(s@, max as int) is None,
        },
{
    let start: usize = if s.len() > 0 && s[0] == '+' {
        1
    } else {
        0
    };
    let digits = slice_subrange(s, start, s.len());
    assert(digits@ =~= (if s@.len() > 0 && s@[0] == '+' {
        s@.skip(1)
    } else {
        s@
    }));
    if digits.len() == 0 {
        return None;
    }
    let mut acc: u64 = 0;
    let mut i: usize = 0;
    while i < digits.len()
        invariant
            i <= digits.len(),
            all_digits(digits@.take(i as int)),
            acc == digits_value(digits@.take(i as int)),
            acc <= max,
            decimal_value(s@, max as int) == (if all_digits(digits@) && digits_value(digits@)
                <= max {
                Some(digits_value(digits@))
            } else {
                None
            }),
        decreases digits.len() - i,
    {
        let c = digits[i];
        if !('0' <= c && c <= '9') {
            assert(!is_digit(digits@[i as int]));
            return None;
        }
        let d: u64 = (c as u32 - '0' as u32) as u64;
        let next: u128 = acc as u128 * 10 + d as u128;
        proof {
            let upto = digits@.take(i + 1);
            assert(upto.drop_last() =~= digits@.take(i as int));
            assert(upto.last() == c);
            assert(next == digits_value(upto));
            assert forall|j: int| 0 <= j < upto.len() implies is_digit(#[trigger] upto[j]) by {
                if j < i {
                    assert(upto[j] == digits@.take(i as int)[j]);
                }
            }
            if next > max && all_digits(digits@) {
                lemma_digits_value_prefix(digits@, i + 1);
            }
        }
        if next > max as u128 {
            return None;
        }
        acc = next as u64;
        i += 1;
    }
    assert(digits@.take(i as int) =~= digits@);
    Some(acc)
}

/// Appends the shortest numeral for `n` to `out`.
pub fn push_decimal(out: &mut String, n: u64)
    ensures
        final(out)@ == old(out)@ + decimal(n as nat),
    decreases n,
{
    if n >= 10 {
        push_decimal(out, n / 10);
    }
    let d: u8 = (n % 10) as u8;
    let c: char = (48u8 + d) as char;
    assert(c == digit_char((n % 10) as int));
    out.push(c);
    proof {
        if n < 10 {
            assert(old(out)@.push(c) =~= old(out)@ + decimal(n as nat));
        } else {
            assert((old(out)@ + decimal((n / 10) as nat)).push(c) =~= old(out)@ + decimal(
                n as nat,
            ));
        }
    }
}

} // verus!
