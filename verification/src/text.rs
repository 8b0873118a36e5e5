//! Text primitives over sequences of characters.
//!
//! Strings are viewed as `Seq<char>`. The executable functions work on
//! `Vec<char>` and are specified by the spec functions beside them.

use vstd::prelude::*;

verus! {

/// `String::push` of the standard library appends one character to the end of
/// the string and leaves the rest as it was.
pub assume_specification[ String::push ](s: &mut String, c: char)
    ensures
        final(s)@ == old(s)@.push(c),
;

/// What `str::to_lowercase` returns for a text: the Unicode lower-case mapping of
/// the whole text, which is not a mapping of single characters.
pub uninterp spec fn lowercase(s: Seq<char>) -> Seq<char>;

/// What `char::is_alphanumeric` returns for a character: whether Unicode classes
/// it as alphabetic or numeric.
pub uninterp spec fn alphanumeric(c: char) -> bool;

/// Calls `str::to_lowercase`. The contract only gives the result its name: the
/// lower-case form is a function of the text alone.
#[verifier::external_body]
pub(crate) fn to_lowercase(s: &str) -> (r: String)
    ensures
        r@ == lowercase(s@),
{
    s.to_lowercase()
}

/// Calls `char::is_alphanumeric`. The contract only gives the result its name.
#[verifier::external_body]
pub(crate) fn is_alphanumeric(c: char) -> (r: bool)
    ensures
        r == alphanumeric(c),
{
    c.is_alphanumeric()
}

/// The characters of a string, in order.
pub fn chars_of(s: &str) -> (v: Vec<char>)
    ensures
        v@ == s@,
{
    let mut v: Vec<char> = Vec::new();
    for c in it: s.chars()
        invariant
            v@ == it.seq().take(it.index()),
    {
        v.push(c);
    }
    v
}

/// The string made of the given characters, in order.
pub fn string_of(v: &Vec<char>) -> (s: String)
    ensures
        s@ == v@,
{
    let mut s = String::new();
    let mut i: usize = 0;
    while i < v.len()
        invariant
            i <= v.len(),
            s@ == v@.take(i as int),
        decreases v.len() - i,
    {
        s.push(v[i]);
        i += 1;
    }
    s
}

/// The characters `v[lo..hi]` as a vector of their own.
pub fn subvec(v: &Vec<char>, lo: usize, hi: usize) -> (r: Vec<char>)
    requires
        lo <= hi <= v.len(),
    ensures
        r@ == v@.subrange(lo as int, hi as int),
{
    let mut r: Vec<char> = Vec::new();
    let mut i: usize = lo;
    while i < hi
        invariant
            lo <= i <= hi <= v.len(),
            r@ == v@.subrange(lo as int, i as int),
        decreases hi - i,
    {
        r.push(v[i]);
        i += 1;
    }
    r
}

/// Whether two vectors hold the same characters.
pub fn same_chars(a: &Vec<char>, b: &Vec<char>) -> (r: bool)
    ensures
        r == (a@ == b@),
{
    if a.len() != b.len() {
        return false;
    }
    let mut i: usize = 0;
    while i < a.len()
        invariant
            i <= a.len(),
            a.len() == b.len(),
            a@.take(i as int) == b@.take(i as int),
        decreases a.len() - i,
    {
        if a[i] != b[i] {
            return false;
        }
        proof {
            assert(a@.take(i + 1) =~= a@.take(i as int).push(a@[i as int]));
            assert(b@.take(i + 1) =~= b@.take(i as int).push(b@[i as int]));
        }
        i += 1;
    }
    proof {
        assert(a@ =~= a@.take(a.len() as int));
        assert(b@ =~= b@.take(b.len() as int));
    }
    true
}

/// White space: the characters with the Unicode property `White_Space`.
pub open spec fn is_whitespace(c: char) -> bool {
    ||| '\u{9}' <= c <= '\u{d}'
    ||| c == ' '
    ||| c == '\u{85}'
    ||| c == '\u{a0}'
    ||| c == '\u{1680}'
    ||| '\u{2000}' <= c <= '\u{200a}'
    ||| c == '\u{2028}'
    ||| c == '\u{2029}'
    ||| c == '\u{202f}'
    ||| c == '\u{205f}'
    ||| c == '\u{3000}'
}

/// Whether a character is white space.
pub fn whitespace(c: char) -> (r: bool)
    ensures
        r == is_whitespace(c),
{
    ('\u{9}' <= c && c <= '\u{d}') || c == ' ' || c == '\u{85}' || c == '\u{a0}' || c
        == '\u{1680}' || ('\u{2000}' <= c && c <= '\u{200a}') || c == '\u{2028}' || c
        == '\u{2029}' || c == '\u{202f}' || c == '\u{205f}' || c == '\u{3000}'
}

/// The text without its leading white space.
pub open spec fn trimmed_start(s: Seq<char>) -> Seq<char>
    decreases s.len(),
{
    if s.len() > 0 && is_whitespace(s[0]) {
        trimmed_start(s.skip(1))
    } else {
        s
    }
}

/// The text without its trailing white space.
pub open spec fn trimmed_end(s: Seq<char>) -> Seq<char>
    decreases s.len(),
{
    if s.len() > 0 && is_whitespace(s.last()) {
        trimmed_end(s.drop_last())
    } else {
        s
    }
}

/// The text without leading and trailing white space.
pub open spec fn trimmed(s: Seq<char>) -> Seq<char> {
    trimmed_end(trimmed_start(s))
}

/// Trimming at the start leaves no white space in front.
pub proof fn lemma_trimmed_start_head(s: Seq<char>)
    ensures
        trimmed_start(s).len() > 0 ==> !is_whitespace(trimmed_start(s)[0]),
    decreases s.len(),
{
    if s.len() > 0 && is_whitespace(s[0]) {
        lemma_trimmed_start_head(s.skip(1));
    }
}

/// Trimming at the end leaves a prefix.
pub proof fn lemma_trimmed_end_prefix(s: Seq<char>)
    ensures
        trimmed_end(s).is_prefix_of(s),
    decreases s.len(),
{
    if s.len() > 0 && is_whitespace(s.last()) {
        lemma_trimmed_end_prefix(s.drop_last());
        let t = trimmed_end(s.drop_last());
        assert(t =~= s.subrange(0, t.len() as int));
    } else {
        assert(s =~= s.subrange(0, s.len() as int));
    }
}

/// Trimming a text that is empty or begins with a character that is no white
/// space only takes from its end.
pub proof fn lemma_trimmed_prefix(s: Seq<char>)
    requires
        s.len() > 0 ==> !is_whitespace(s[0]),
    ensures
        trimmed(s).is_prefix_of(s),
{
    lemma_trimmed_end_prefix(s);
}

/// The text without leading and trailing white space.
pub fn trim(v: &Vec<char>) -> (r: Vec<char>)
    ensures
        r@ == trimmed(v@),
{
    let mut lo: usize = 0;
    proof {
        assert(v@.skip(0) =~= v@);
    }
    while lo < v.len() && whitespace(v[lo])
        invariant
            lo <= v.len(),
            trimmed_start(v@) == trimmed_start(v@.skip(lo as int)),
        decreases v.len() - lo,
    {
        proof {
            assert(v@.skip(lo as int).skip(1) =~= v@.skip(lo + 1));
        }
        lo += 1;
    }
    let mut hi: usize = v.len();
    proof {
        assert(v@.skip(lo as int) =~= v@.subrange(lo as int, hi as int));
    }
    while hi > lo && whitespace(v[hi - 1])
        invariant
            lo <= hi <= v.len(),
            trimmed(v@) == trimmed_end(v@.subrange(lo as int, hi as int)),
        decreases hi - lo,
    {
        proof {
            assert(v@.subrange(lo as int, hi as int).drop_last() =~= v@.subrange(
                lo as int,
                hi - 1,
            ));
        }
        hi -= 1;
    }
    subvec(v, lo, hi)
}

/// The text without leading and trailing occurrences of `c`.
pub open spec fn stripped(s: Seq<char>, c: char) -> Seq<char> {
    stripped_end(stripped_start(s, c), c)
}

/// The text without its leading occurrences of `c`.
pub open spec fn stripped_start(s: Seq<char>, c: char) -> Seq<char>
    decreases s.len(),
{
    if s.len() > 0 && s[0] == c {
        stripped_start(s.skip(1), c)
    } else {
        s
    }
}

/// The text without its trailing occurrences of `c`.
pub open spec fn stripped_end(s: Seq<char>, c: char) -> Seq<char>
    decreases s.len(),
{
    if s.len() > 0 && s.last() == c {
        stripped_end(s.drop_last(), c)
    } else {
        s
    }
}

/// The text without leading and trailing occurrences of `c`.
pub fn strip(v: &Vec<char>, c: char) -> (r: Vec<char>)
    ensures
        r@ == stripped(v@, c),
{
    let mut lo: usize = 0;
    proof {
        assert(v@.skip(0) =~= v@);
    }
    while lo < v.len() && v[lo] == c
        invariant
            lo <= v.len(),
            stripped_start(v@, c) == stripped_start(v@.skip(lo as int), c),
        decreases v.len() - lo,
    {
        proof {
            assert(v@.skip(lo as int).skip(1) =~= v@.skip(lo + 1));
        }
        lo += 1;
    }
    let mut hi: usize = v.len();
    proof {
        assert(v@.skip(lo as int) =~= v@.subrange(lo as int, hi as int));
    }
    while hi > lo && v[hi - 1] == c
        invariant
            lo <= hi <= v.len(),
            stripped(v@, c) == stripped_end(v@.subrange(lo as int, hi as int), c),
        decreases hi - lo,
    {
        proof {
            assert(v@.subrange(lo as int, hi as int).drop_last() =~= v@.subrange(
                lo as int,
                hi - 1,
            ));
        }
        hi -= 1;
    }
    subvec(v, lo, hi)
}

/// The index of the first `c` in `s`, or `s.len()` where `s` holds none.
pub open spec fn index_of(s: Seq<char>, c: char) -> int
    decreases s.len(),
{
    if s.len() == 0 || s[0] == c {
        0
    } else {
        1 + index_of(s.skip(1), c)
    }
}

/// `index_of` is the one position before which no `c` stands and at which the
/// text ends or holds `c`.
pub proof fn lemma_index_of(s: Seq<char>, c: char, e: int)
    requires
        0 <= e <= s.len(),
        forall|i: int| 0 <= i < e ==> s[i] != c,
        e == s.len() || s[e] == c,
    ensures
        index_of(s, c) == e,
    decreases e,
{
    if e > 0 {
        lemma_index_of(s.skip(1), c, e - 1);
    }
}

/// What `index_of` finds: a position within the text or its length, with no `c`
/// before it, and `c` at it where it lies within the text.
pub proof fn lemma_index_of_found(s: Seq<char>, c: char)
    ensures
        0 <= index_of(s, c) <= s.len(),
        forall|i: int| 0 <= i < index_of(s, c) ==> s[i] != c,
        index_of(s, c) < s.len() ==> s[index_of(s, c)] == c,
    decreases s.len(),
{
    if s.len() == 0 || s[0] == c {
    } else {
        lemma_index_of_found(s.skip(1), c);
        assert forall|i: int| 0 <= i < index_of(s, c) implies s[i] != c by {
            if i > 0 {
                assert(s.skip(1)[i - 1] == s[i]);
            }
        }
    }
}

/// The position of the first `c` at or after `from`, or the length of `v`.
pub fn find_char(v: &Vec<char>, from: usize, c: char) -> (e: usize)
    requires
        from <= v.len(),
    ensures
        from <= e <= v.len(),
        e - from == index_of(v@.skip(from as int), c),
{
    let mut e: usize = from;
    while e < v.len() && v[e] != c
        invariant
            from <= e <= v.len(),
            forall|i: int| from <= i < e ==> v@[i] != c,
        decreases v.len() - e,
    {
        e += 1;
    }
    proof {
        lemma_index_of(v@.skip(from as int), c, e - from);
    }
    e
}

/// Whether `v` begins with the characters of `p`.
pub fn starts_with(v: &Vec<char>, p: &Vec<char>) -> (r: bool)
    ensures
        r == p@.is_prefix_of(v@),
{
    if p.len() > v.len() {
        return false;
    }
    let mut i: usize = 0;
    while i < p.len()
        invariant
            i <= p.len() <= v.len(),
            forall|j: int| 0 <= j < i ==> v@[j] == p@[j],
        decreases p.len() - i,
    {
        if v[i] != p[i] {
            proof {
                assert(v@.subrange(0, p.len() as int)[i as int] != p@[i as int]);
            }
            return false;
        }
        i += 1;
    }
    proof {
        assert(p@ =~= v@.subrange(0, p.len() as int));
    }
    true
}

/// Whether `k` stands in `s` at position `i`.
pub open spec fn occurs_at(s: Seq<char>, k: Seq<char>, i: int) -> bool {
    0 <= i && i + k.len() <= s.len() && s.subrange(i, i + k.len()) == k
}

/// Whether `k` is a substring of `s`. The empty text is a substring of every text.
pub open spec fn contains(s: Seq<char>, k: Seq<char>) -> bool {
    exists|i: int| occurs_at(s, k, i)
}

fn occurs(s: &Vec<char>, k: &Vec<char>, i: usize) -> (r: bool)
    requires
        i + k.len() <= s.len(),
    ensures
        r == occurs_at(s@, k@, i as int),
{
    let mut j: usize = 0;
    while j < k.len()
        invariant
            j <= k.len(),
            i + k.len() <= s.len(),
            forall|m: int| 0 <= m < j ==> s@[i + m] == k@[m],
        decreases k.len() - j,
    {
        if s[i + j] != k[j] {
            proof {
                assert(s@.subrange(i as int, i + k.len())[j as int] != k@[j as int]);
            }
            return false;
        }
        j += 1;
    }
    proof {
        assert(s@.subrange(i as int, i + k.len()) =~= k@);
    }
    true
}

/// Whether `k` is a substring of `s`.
pub fn has_substring(s: &Vec<char>, k: &Vec<char>) -> (r: bool)
    ensures
        r == contains(s@, k@),
{
    if k.len() > s.len() {
        return false;
    }
    let last: usize = s.len() - k.len();
    let mut i: usize = 0;
    loop
        invariant
            i <= last,
            last == s.len() - k.len(),
            k.len() <= s.len(),
            forall|j: int| 0 <= j < i ==> !occurs_at(s@, k@, j),
        decreases last - i,
    {
        if occurs(s, k, i) {
            return true;
        }
        if i == last {
            return false;
        }
        i += 1;
    }
}

/// The contents of a vector's vectors, in order.
pub open spec fn rows(v: Seq<Vec<char>>) -> Seq<Seq<char>> {
    Seq::new(v.len(), |i: int| v[i]@)
}

/// The views of a vector's strings, in order.
pub open spec fn texts(v: Seq<String>) -> Seq<Seq<char>> {
    Seq::new(v.len(), |i: int| v[i]@)
}

/// The parts in order, with `sep` between each two neighbours.
pub open spec fn joined(parts: Seq<Seq<char>>, sep: Seq<char>) -> Seq<char>
    decreases parts.len(),
{
    if parts.len() == 0 {
        Seq::empty()
    } else if parts.len() == 1 {
        parts[0]
    } else {
        joined(parts.drop_last(), sep) + sep + parts.last()
    }
}

/// Joins the parts, with `sep` between each two neighbours.
pub fn join(parts: &Vec<String>, sep: &str) -> (r: String)
    ensures
        r@ == joined(texts(parts@), sep@),
{
    let mut r = String::new();
    let mut i: usize = 0;
    while i < parts.len()
        invariant
            i <= parts.len(),
            r@ == joined(texts(parts@).take(i as int), sep@),
        decreases parts.len() - i,
    {
        proof {
            assert(texts(parts@).take(i + 1).drop_last() =~= texts(parts@).take(i as int));
        }
        if i > 0 {
            r.append(sep);
        }
        r.append(parts[i].as_str());
        i += 1;
    }
    proof {
        assert(texts(parts@).take(parts.len() as int) =~= texts(parts@));
    }
    r
}

/// The pieces of `s` between the occurrences of `sep`: one more piece than there
/// are separators, so the empty text has one empty piece.
pub open spec fn split(s: Seq<char>, sep: char) -> Seq<Seq<char>>
    decreases s.len(),
{
    let e = index_of(s, sep);
    if 0 <= e < s.len() {
        seq![s.take(e)] + split(s.skip(e + 1), sep)
    } else {
        seq![s]
    }
}

/// Cuts `v` at each occurrence of `sep`; the separators belong to no piece.
pub fn split_at_char(v: &Vec<char>, sep: char) -> (r: Vec<Vec<char>>)
    ensures
        rows(r@) == split(v@, sep),
{
    let mut r: Vec<Vec<char>> = Vec::new();
    let mut from: usize = 0;
    proof {
        assert(v@.skip(0) =~= v@);
        assert(rows(r@) + split(v@, sep) =~= split(v@, sep));
    }
    loop
        invariant
            from <= v.len(),
            split(v@, sep) == rows(r@) + split(v@.skip(from as int), sep),
        decreases v.len() - from,
    {
        let e = find_char(v, from, sep);
        let piece = subvec(v, from, e);
        let ghost before = rows(r@);
        r.push(piece);
        proof {
            lemma_index_of_found(v@.skip(from as int), sep);
            assert(v@.skip(from as int).take(e - from) =~= piece@);
            assert(rows(r@) =~= before.push(piece@));
        }
        if e >= v.len() {
            proof {
                assert(v@.skip(from as int) =~= piece@);
                assert(before + seq![piece@] =~= before.push(piece@));
            }
            return r;
        }
        proof {
            assert(v@.skip(from as int).skip(e - from + 1) =~= v@.skip(e + 1));
            assert(before + (seq![piece@] + split(v@.skip(e + 1), sep)) =~= before.push(piece@)
                + split(v@.skip(e + 1), sep));
        }
        from = e + 1;
    }
}

/// The character that writes the digit `d`.
pub open spec fn digit(d: nat) -> char {
    seq!['0', '1', '2', '3', '4', '5', '6', '7', '8', '9'][(d % 10) as int]
}

/// The decimal numeral of `n`, without leading zeros.
pub open spec fn decimal(n: nat) -> Seq<char>
    decreases n,
{
    if n < 10 {
        seq![digit(n)]
    } else {
        decimal(n / 10).push(digit(n % 10))
    }
}

fn digit_char(d: usize) -> (c: char)
    requires
        d < 10,
    ensures
        c == digit(d as nat),
{
    if d == 0 {
        '0'
    } else if d == 1 {
        '1'
    } else if d == 2 {
        '2'
    } else if d == 3 {
        '3'
    } else if d == 4 {
        '4'
    } else if d == 5 {
        '5'
    } else if d == 6 {
        '6'
    } else if d == 7 {
        '7'
    } else if d == 8 {
        '8'
    } else {
        '9'
    }
}

/// The decimal numeral of `n`.
pub fn decimal_of(n: usize) -> (r: Vec<char>)
    ensures
        r@ == decimal(n as nat),
    decreases n,
{
    if n < 10 {
        let mut r: Vec<char> = Vec::new();
        r.push(digit_char(n));
        r
    } else {
        let mut r = decimal_of(n / 10);
        r.push(digit_char(n % 10));
        r
    }
}

/// The strings made of the given rows of characters, in order.
pub fn strings_of(v: &Vec<Vec<char>>) -> (r: Vec<String>)
    ensures
        texts(r@) == rows(v@),
{
    let mut r: Vec<String> = Vec::new();
    let mut i: usize = 0;
    while i < v.len()
        invariant
            i <= v.len(),
            texts(r@) == rows(v@).take(i as int),
        decreases v.len() - i,
    {
        let ghost before = texts(r@);
        let s = string_of(&v[i]);
        r.push(s);
        proof {
            assert(texts(r@) =~= before.push(s@));
            assert(rows(v@).take(i + 1) =~= rows(v@).take(i as int).push(v@[i as int]@));
        }
        i += 1;
    }
    proof {
        assert(rows(v@).take(v.len() as int) =~= rows(v@));
    }
    r
}

/// A copy of the given strings.
pub fn clone_strings(v: &Vec<String>) -> (r: Vec<String>)
    ensures
        texts(r@) == texts(v@),
{
    let mut r: Vec<String> = Vec::new();
    let mut i: usize = 0;
    while i < v.len()
        invariant
            i <= v.len(),
            texts(r@) == texts(v@).take(i as int),
        decreases v.len() - i,
    {
        let ghost before = texts(r@);
        let s = v[i].clone();
        r.push(s);
        proof {
            assert(texts(r@) =~= before.push(s@));
            assert(texts(v@).take(i + 1) =~= texts(v@).take(i as int).push(v@[i as int]@));
        }
        i += 1;
    }
    proof {
        assert(texts(v@).take(v.len() as int) =~= texts(v@));
    }
    r
}

/// The index of the first `true` in `b`, or `b.len()` where `b` holds none.
pub open spec fn first_true(b: Seq<bool>) -> int
    decreases b.len(),
{
    if b.len() == 0 || b[0] {
        0
    } else {
        1 + first_true(b.skip(1))
    }
}

proof fn lemma_first_true(b: Seq<bool>, e: int)
    requires
        0 <= e <= b.len(),
        forall|i: int| 0 <= i < e ==> !b[i],
        e == b.len() || b[e],
    ensures
        first_true(b) == e,
    decreases e,
{
    if e > 0 {
        lemma_first_true(b.skip(1), e - 1);
    }
}

/// The pieces of `s` between the positions that `cut` marks: one more piece than
/// there are marks. `cut` has one entry for each character of `s`.
pub open spec fn pieces(s: Seq<char>, cut: Seq<bool>) -> Seq<Seq<char>>
    decreases s.len(),
{
    let e = first_true(cut);
    if 0 <= e < s.len() {
        seq![s.take(e)] + pieces(s.skip(e + 1), cut.skip(e + 1))
    } else {
        seq![s]
    }
}

/// Cuts `v` at the marked positions; the marked characters belong to no piece.
pub fn split_marked(v: &Vec<char>, cut: &Vec<bool>) -> (r: Vec<Vec<char>>)
    requires
        cut.len() == v.len(),
    ensures
        rows(r@) == pieces(v@, cut@),
{
    let mut r: Vec<Vec<char>> = Vec::new();
    let mut from: usize = 0;
    proof {
        assert(v@.skip(0) =~= v@);
        assert(cut@.skip(0) =~= cut@);
        assert(rows(r@) + pieces(v@, cut@) =~= pieces(v@, cut@));
    }
    loop
        invariant
            from <= v.len(),
            cut.len() == v.len(),
            pieces(v@, cut@) == rows(r@) + pieces(v@.skip(from as int), cut@.skip(from as int)),
        decreases v.len() - from,
    {
        let mut e: usize = from;
        while e < v.len() && !cut[e]
            invariant
                from <= e <= v.len(),
                cut.len() == v.len(),
                forall|i: int| from <= i < e ==> !cut@[i],
            decreases v.len() - e,
        {
            e += 1;
        }
        let piece = subvec(v, from, e);
        let ghost before = rows(r@);
        r.push(piece);
        proof {
            lemma_first_true(cut@.skip(from as int), e - from);
            assert(v@.skip(from as int).take(e - from) =~= piece@);
            assert(rows(r@) =~= before.push(piece@));
        }
        if e >= v.len() {
            proof {
                assert(v@.skip(from as int) =~= piece@);
                assert(before + seq![piece@] =~= before.push(piece@));
            }
            return r;
        }
        proof {
            assert(v@.skip(from as int).skip(e - from + 1) =~= v@.skip(e + 1));
            assert(cut@.skip(from as int).skip(e - from + 1) =~= cut@.skip(e + 1));
            assert(before + (seq![piece@] + pieces(v@.skip(e + 1), cut@.skip(e + 1)))
                =~= before.push(piece@) + pieces(v@.skip(e + 1), cut@.skip(e + 1)));
        }
        from = e + 1;
    }
}

/// Whether `v` ends with the characters of `p`.
pub fn ends_with(v: &Vec<char>, p: &Vec<char>) -> (r: bool)
    ensures
        r == p@.is_suffix_of(v@),
{
    if p.len() > v.len() {
        return false;
    }
    let off: usize = v.len() - p.len();
    let mut i: usize = 0;
    while i < p.len()
        invariant
            i <= p.len() <= v.len(),
            off == v.len() - p.len(),
            forall|j: int| 0 <= j < i ==> v@[off + j] == p@[j],
        decreases p.len() - i,
    {
        if v[off + i] != p[i] {
            proof {
                assert(v@.subrange(off as int, v.len() as int)[i as int] != p@[i as int]);
            }
            return false;
        }
        i += 1;
    }
    proof {
        assert(p@ =~= v@.subrange(off as int, v.len() as int));
    }
    true
}

/// Whether two texts hold the same characters.
pub fn same_text(a: &str, b: &str) -> (r: bool)
    ensures
        r == (a@ == b@),
{
    let x = chars_of(a);
    let y = chars_of(b);
    same_chars(&x, &y)
}

} // verus!
