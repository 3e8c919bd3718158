//! Character sequences: searching, trimming, comparing and building.

use vstd::prelude::*;
use vstd::slice::slice_subrange;

verus! {

broadcast use vstd::string::group_string_axioms;

/// `String::push` appends the given character and leaves the characters before it as they are.
pub assume_specification[ String::push ](s: &mut String, c: char)
    ensures
        final(s)@ == old(s)@.push(c),
;

/// The characters with the Unicode property `White_Space`.
pub open spec fn white_space(c: char) -> bool {
    ||| '\u{9}' <= c <= '\u{d}'
    ||| c == ' '
    ||| c == '\u{85}'
    ||| c == '\u{a0}'
    ||| c == '\u{1680}'
    ||| '\u{2000}' <= c <= '\u{200a}'
    ||| c == '\u{2028}'
    ||| c == '\u{2029}'
    ||| c == '\u{202f}'
    ||| c == '\u{205f}'
    ||| c == '\u{3000}'
}

/// `c` with an ASCII capital letter replaced by its small letter.
pub open spec fn ascii_lower(c: char) -> char {
    if 'A' <= c <= 'Z' {
        ((c as u8) + 32) as u8 as char
    } else {
        c
    }
}

/// `s` with every ASCII capital letter replaced by its small letter.
pub open spec fn ascii_lowercase(s: Seq<char>) -> Seq<char> {
    s.map_values(|c: char| ascii_lower(c))
}

/// `pat` stands in `s` from position `i` on.
pub open spec fn occurs_at<T>(s: Seq<T>, pat: Seq<T>, i: int) -> bool {
    &&& 0 <= i
    &&& i + pat.len() <= s.len()
    &&& s.subrange(i, i + pat.len()) == pat
}

/// `i` is the first position at which `pat` stands in `s`.
pub open spec fn first_at<T>(s: Seq<T>, pat: Seq<T>, i: int) -> bool {
    &&& occurs_at(s, pat, i)
    &&& forall|j: int| 0 <= j < i ==> !occurs_at(s, pat, j)
}

/// The first position at which `pat` stands in `s`, if there is one.
pub open spec fn index_of<T>(s: Seq<T>, pat: Seq<T>) -> Option<int> {
    if exists|i: int| first_at(s, pat, i) {
        Some(choose|i: int| first_at(s, pat, i))
    } else {
        None
    }
}

/// `pat` stands somewhere in `s`.
pub open spec fn occurs<T>(s: Seq<T>, pat: Seq<T>) -> bool {
    exists|i: int| occurs_at(s, pat, i)
}

/// `s` without the white space it begins with.
pub open spec fn trim_start(s: Seq<char>) -> Seq<char>
    decreases s.len(),
{
    if s.len() > 0 && white_space(s[0]) {
        trim_start(s.drop_first())
    } else {
        s
    }
}

/// `s` without the white space it ends with.
pub open spec fn trim_end(s: Seq<char>) -> Seq<char>
    decreases s.len(),
{
    if s.len() > 0 && white_space(s.last()) {
        trim_end(s.drop_last())
    } else {
        s
    }
}

/// How many characters `s` has in front of its first white space.
pub open spec fn word_len(s: Seq<char>) -> nat
    decreases s.len(),
{
    if s.len() == 0 || white_space(s[0]) {
        0
    } else {
        1 + word_len(s.drop_first())
    }
}

/// `s` without the white space at its two ends.
pub open spec fn trimmed(s: Seq<char>) -> Seq<char> {
    trim_end(trim_start(s))
}

/// A first position is the only one, and decides `index_of`.
pub proof fn lemma_first_at<T>(s: Seq<T>, pat: Seq<T>, i: int)
    requires
        first_at(s, pat, i),
    ensures
        index_of(s, pat) == Some(i),
        occurs(s, pat),
{
    let k = choose|k: int| first_at(s, pat, k);
    assert(first_at(s, pat, k));
    assert(occurs_at(s, pat, k));
}

/// Without an occurrence there is no first one.
pub proof fn lemma_no_occurrence<T>(s: Seq<T>, pat: Seq<T>)
    requires
        forall|i: int| 0 <= i < s.len() + 1 - pat.len() ==> !occurs_at(s, pat, i),
    ensures
        index_of(s, pat) is None,
        !occurs(s, pat),
{
    assert forall|i: int| !first_at(s, pat, i) && !occurs_at(s, pat, i) by {
        if occurs_at(s, pat, i) {
            assert(0 <= i < s.len() + 1 - pat.len());
        }
    }
}

/// Where `index_of` gives a position, the sequence stands there and not before.
pub proof fn lemma_index_of<T>(s: Seq<T>, pat: Seq<T>)
    ensures
        index_of(s, pat) matches Some(i) ==> first_at(s, pat, i) && 0 <= i <= s.len() - pat.len(),
{
    if exists|i: int| first_at(s, pat, i) {
        let i = choose|i: int| first_at(s, pat, i);
        assert(first_at(s, pat, i));
    }
}

/// Whether `c` is white space.
pub fn is_white_space(c: char) -> (r: bool)
    ensures
        r == white_space(c),
{
    ('\u{9}' <= c && c <= '\u{d}') || c == ' ' || c == '\u{85}' || c == '\u{a0}' || c == '\u{1680}'
        || ('\u{2000}' <= c && c <= '\u{200a}') || c == '\u{2028}' || c == '\u{2029}'
        || c == '\u{202f}' || c == '\u{205f}' || c == '\u{3000}'
}

/// The characters of `s`, in order.
pub fn chars_of(s: &str) -> (r: Vec<char>)
    ensures
        r@ == s@,
{
    let mut out: Vec<char> = Vec::new();
    for c in iter: s.chars()
        invariant
            out@ == iter.seq().take(iter.index() as int),
            iter.seq() == s@,
    {
        out.push(c);
    }
    out
}

/// The string made of the characters `cs`, in order.
pub fn string_of(cs: &[char]) -> (r: String)
    ensures
        r@ == cs@,
{
    let mut out = String::new();
    let mut i: usize = 0;
    while i < cs.len()
        invariant
            i <= cs.len(),
            out@ == cs@.take(i as int),
        decreases cs.len() - i,
    {
        out.push(cs[i]);
        i += 1;
        assert(cs@.take(i as int) == cs@.take(i - 1).push(cs@[i - 1]));
    }
    assert(cs@.take(i as int) == cs@);
    out
}

/// The text `a` followed by the text `b`.
pub fn joined(a: &str, b: &str) -> (r: String)
    ensures
        r@ == a@ + b@,
{
    let mut out = a.to_owned();
    out.append(b);
    out
}

/// Whether `pat` stands in `s` from position `i` on.
pub fn stands_at(s: &[char], pat: &[char], i: usize) -> (r: bool)
    ensures
        r == occurs_at(s@, pat@, i as int),
{
    if i > s.len() || pat.len() > s.len() - i {
        return false;
    }
    let mut k: usize = 0;
    while k < pat.len()
        invariant
            k <= pat.len(),
            i + pat.len() <= s.len(),
            forall|m: int| 0 <= m < k ==> s@[i + m] == pat@[m],
        decreases pat.len() - k,
    {
        if s[i + k] != pat[k] {
            assert(s@.subrange(i as int, i + pat@.len())[k as int] != pat@[k as int]);
            return false;
        }
        k += 1;
    }
    assert(s@.subrange(i as int, i + pat@.len()) =~= pat@);
    true
}

/// The first position at which `pat` stands in `s`, if there is one.
pub fn find(s: &[char], pat: &[char]) -> (r: Option<usize>)
    ensures
        r is Some <==> index_of(s@, pat@) is Some,
        r matches Some(i) ==> index_of(s@, pat@) == Some(i as int) && i + pat.len() <= s.len(),
{
    if pat.len() > s.len() {
        proof {
            lemma_no_occurrence(s@, pat@);
        }
        return None;
    }
    let last: usize = s.len() - pat.len();
    let mut i: usize = 0;
    loop
        invariant
            i <= last,
            last == s.len() - pat.len(),
            forall|j: int| 0 <= j < i ==> !occurs_at(s@, pat@, j),
        decreases last - i,
    {
        if stands_at(s, pat, i) {
            proof {
                lemma_first_at(s@, pat@, i as int);
            }
            return Some(i);
        }
        if i == last {
            proof {
                lemma_no_occurrence(s@, pat@);
            }
            return None;
        }
        i += 1;
    }
}

/// Whether the text `pat` stands somewhere in `s`.
pub fn contains(s: &[char], pat: &str) -> (r: bool)
    ensures
        r == occurs(s@, pat@),
{
    let pat = chars_of(pat);
    let r = find(s, pat.as_slice());
    proof {
        lemma_index_of(s@, pat@);
        if index_of(s@, pat@) is None && occurs(s@, pat@) {
            lemma_least_occurrence(s@, pat@);
        }
    }
    r.is_some()
}

/// Where a sequence stands at all, it stands at a first position.
pub proof fn lemma_least_occurrence<T>(s: Seq<T>, pat: Seq<T>)
    requires
        occurs(s, pat),
    ensures
        index_of(s, pat) is Some,
{
    let i = choose|i: int| occurs_at(s, pat, i);
    lemma_least_occurrence_up_to(s, pat, i);
}

proof fn lemma_least_occurrence_up_to<T>(s: Seq<T>, pat: Seq<T>, i: int)
    requires
        occurs_at(s, pat, i),
    ensures
        index_of(s, pat) is Some,
    decreases i,
{
    if exists|j: int| 0 <= j < i && occurs_at(s, pat, j) {
        let j = choose|j: int| 0 <= j < i && occurs_at(s, pat, j);
        lemma_least_occurrence_up_to(s, pat, j);
    } else {
        assert(first_at(s, pat, i));
    }
}

/// Whether `s` is the text `lit`.
pub fn is_text(s: &[char], lit: &str) -> (r: bool)
    ensures
        r == (s@ == lit@),
{
    let lit = chars_of(lit);
    if s.len() != lit.len() {
        return false;
    }
    let r = stands_at(s, lit.as_slice(), 0);
    assert(s@.subrange(0, s@.len() as int) == s@);
    r
}

/// Whether `s` begins with the text `lit`.
pub fn begins_with(s: &[char], lit: &str) -> (r: bool)
    ensures
        r == lit@.is_prefix_of(s@),
{
    let lit = chars_of(lit);
    stands_at(s, lit.as_slice(), 0)
}

/// `s` without the white space at its two ends.
pub fn trim(s: &[char]) -> (r: &[char])
    ensures
        r@ == trimmed(s@),
{
    let mut from: usize = 0;
    assert(s@.subrange(0, s@.len() as int) == s@);
    while from < s.len() && is_white_space(s[from])
        invariant
            from <= s.len(),
            trim_start(s@) == trim_start(s@.subrange(from as int, s@.len() as int)),
        decreases s.len() - from,
    {
        assert(s@.subrange(from as int, s@.len() as int).drop_first() == s@.subrange(
            from + 1,
            s@.len() as int,
        ));
        from += 1;
    }
    let mut to: usize = s.len();
    while to > from && is_white_space(s[to - 1])
        invariant
            from <= to <= s.len(),
            trimmed(s@) == trim_end(s@.subrange(from as int, to as int)),
        decreases to - from,
    {
        assert(s@.subrange(from as int, to as int).drop_last() == s@.subrange(from as int, to - 1));
        to -= 1;
    }
    slice_subrange(s, from, to)
}

/// `s` without the white space it begins with.
pub fn skip_space<'a>(s: &'a [char]) -> (r: &'a [char])
    ensures
        r@ == trim_start(s@),
{
    let mut from: usize = 0;
    assert(s@.skip(0) == s@);
    while from < s.len() && is_white_space(s[from])
        invariant
            from <= s.len(),
            trim_start(s@) == trim_start(s@.skip(from as int)),
        decreases s.len() - from,
    {
        assert(s@.skip(from as int).drop_first() == s@.skip(from + 1));
        from += 1;
    }
    let r = slice_subrange(s, from, s.len());
    assert(r@ == s@.skip(from as int));
    r
}

/// How many characters `s` has in front of its first white space.
pub fn leading_word(s: &[char]) -> (n: usize)
    ensures
        n == word_len(s@),
        n <= s.len(),
{
    let mut n: usize = 0;
    assert(s@.skip(0) == s@);
    while n < s.len() && !is_white_space(s[n])
        invariant
            n <= s.len(),
            word_len(s@) == n + word_len(s@.skip(n as int)),
        decreases s.len() - n,
    {
        assert(s@.skip(n as int).drop_first() == s@.skip(n + 1));
        n += 1;
    }
    n
}

/// `c` with an ASCII capital letter replaced by its small letter.
pub fn to_ascii_lower(c: char) -> (r: char)
    ensures
        r == ascii_lower(c),
{
    if 'A' <= c && c <= 'Z' {
        ((c as u8) + 32) as char
    } else {
        c
    }
}

/// `s` with every ASCII capital letter replaced by its small letter.
pub fn to_ascii_lowercase(s: &[char]) -> (r: Vec<char>)
    ensures
        r@ == ascii_lowercase(s@),
{
    let mut out: Vec<char> = Vec::new();
    let mut i: usize = 0;
    while i < s.len()
        invariant
            i <= s.len(),
            out@ == ascii_lowercase(s@.take(i as int)),
        decreases s.len() - i,
    {
        out.push(to_ascii_lower(s[i]));
        i += 1;
        assert(ascii_lowercase(s@.take(i as int)) == ascii_lowercase(s@.take(i - 1)).push(
            ascii_lower(s@[i - 1]),
        ));
    }
    assert(s@.take(i as int) == s@);
    out
}

/// The characters of each text.
pub open spec fn texts_view(texts: Seq<&str>) -> Seq<Seq<char>> {
    texts.map_values(|t: &str| t@)
}

/// The characters of each string.
pub open spec fn strings_view(strings: Seq<String>) -> Seq<Seq<char>> {
    strings.map_values(|s: String| s@)
}

/// The characters of a string that may be missing.
pub open spec fn option_view(s: Option<String>) -> Option<Seq<char>> {
    match s {
        Some(s) => Some(s@),
        None => None,
    }
}

/// The texts as strings of their own.
pub fn strings_of(texts: &[&str]) -> (r: Vec<String>)
    ensures
        strings_view(r@) == texts_view(texts@),
{
    let mut out: Vec<String> = Vec::new();
    let mut i: usize = 0;
    while i < texts.len()
        invariant
            i <= texts.len(),
            strings_view(out@) == texts_view(texts@.take(i as int)),
        decreases texts.len() - i,
    {
        let ghost before = out@;
        out.push(texts[i].to_owned());
        i += 1;
        assert(strings_view(out@) == strings_view(before).push(texts@[i - 1]@));
        assert(texts_view(texts@.take(i as int)) == texts_view(texts@.take(i - 1)).push(
            texts@[i - 1]@,
        ));
    }
    assert(texts@.take(i as int) == texts@);
    out
}

/// Small letters differ from the text in its ASCII capital letters alone, and there by the distance
/// between the two cases.
pub proof fn law_only_capitals_change(s: Seq<char>)
    ensures
        ascii_lowercase(s).len() == s.len(),
        forall|i: int|
            0 <= i < s.len() ==> (#[trigger] ascii_lowercase(s)[i]) as int == (if 65 <= s[i] as int
                <= 90 {
                s[i] as int + 32
            } else {
                s[i] as int
            }),
{
}

/// A text stands in another exactly where the other is made of something, the text, and something.
pub proof fn law_occurrence_splits(s: Seq<char>, pat: Seq<char>)
    ensures
        occurs(s, pat) <==> exists|a: Seq<char>, b: Seq<char>| s == #[trigger] (a + pat + b),
{
    if occurs(s, pat) {
        let i = choose|i: int| occurs_at(s, pat, i);
        let (a, b) = (s.take(i), s.skip(i + pat.len()));
        assert(s =~= a + pat + b) by {
            assert forall|k: int| 0 <= k < pat.len() implies s[i + k] == pat[k] by {
                assert(s.subrange(i, i + pat.len())[k] == pat[k]);
            }
        }
    }
    if exists|a: Seq<char>, b: Seq<char>| s == #[trigger] (a + pat + b) {
        let (a, b) = choose|a: Seq<char>, b: Seq<char>| s == #[trigger] (a + pat + b);
        assert(s.subrange(a.len() as int, a.len() as int + pat.len()) =~= pat);
        assert(occurs_at(s, pat, a.len() as int));
    }
}

/// The position that is found is one at which every character agrees, and at every position before
/// it, or everywhere where none is found, some character differs or is missing.
pub proof fn law_found_position_is_the_first(s: Seq<char>, pat: Seq<char>, j: int)
    requires
        0 <= j,
        index_of(s, pat) matches Some(i) ==> j <= i,
    ensures
        (index_of(s, pat) == Some(j)) <==> j + pat.len() <= s.len() && forall|k: int|
            0 <= k < pat.len() ==> s[j + k] == #[trigger] pat[k],
{
    lemma_index_of(s, pat);
    if j + pat.len() <= s.len() && forall|k: int|
        0 <= k < pat.len() ==> s[j + k] == #[trigger] pat[k] {
        assert(s.subrange(j, j + pat.len()) =~= pat);
        assert(occurs_at(s, pat, j));
        lemma_least_occurrence(s, pat);
    }
    if index_of(s, pat) == Some(j) {
        assert forall|k: int| 0 <= k < pat.len() implies s[j + k] == #[trigger] pat[k] by {
            assert(s.subrange(j, j + pat.len())[k] == pat[k]);
        }
    }
}

/// The first word reaches exactly to the first white space, or to the end where there is none.
pub proof fn law_word_ends_at_white_space(s: Seq<char>)
    ensures
        word_len(s) <= s.len(),
        forall|i: int| 0 <= i < word_len(s) ==> !white_space(#[trigger] s[i]),
        word_len(s) < s.len() ==> white_space(s[word_len(s) as int]),
    decreases s.len(),
{
    if s.len() > 0 && !white_space(s[0]) {
        let rest = s.drop_first();
        law_word_ends_at_white_space(rest);
        assert forall|i: int| 0 <= i < word_len(s) implies !white_space(#[trigger] s[i]) by {
            if i > 0 {
                assert(rest[i - 1] == s[i]);
            }
        }
    }
}

/// Trimming takes away white space at the two ends of a text, and what is left is what stood between.
pub proof fn law_trimming_leaves_the_middle(a: Seq<char>, b: Seq<char>, c: Seq<char>)
    requires
        forall|i: int| 0 <= i < a.len() ==> white_space(#[trigger] a[i]),
        forall|i: int| 0 <= i < c.len() ==> white_space(#[trigger] c[i]),
        b.len() > 0 ==> !white_space(b[0]) && !white_space(b.last()),
    ensures
        trimmed(a + b + c) == b,
{
    let s = a + b + c;
    if b.len() == 0 {
        lemma_all_space(s);
        assert(trim_start(s) =~= b);
    } else {
        lemma_start_trimmed(a, b + c);
        assert(a + (b + c) =~= s);
        lemma_end_trimmed(b, c);
    }
}

/// White space is all that `s` holds, so that nothing is left of it.
pub proof fn lemma_all_space(s: Seq<char>)
    requires
        forall|i: int| 0 <= i < s.len() ==> white_space(#[trigger] s[i]),
    ensures
        trim_start(s) == Seq::<char>::empty(),
    decreases s.len(),
{
    if s.len() > 0 {
        assert(white_space(s[0]));
        let rest = s.drop_first();
        assert forall|i: int| 0 <= i < rest.len() implies white_space(#[trigger] rest[i]) by {
            assert(s[i + 1] == rest[i]);
        }
        lemma_all_space(rest);
    } else {
        assert(s =~= Seq::<char>::empty());
    }
}

/// White space in front of something else goes.
pub proof fn lemma_start_trimmed(a: Seq<char>, rest: Seq<char>)
    requires
        forall|i: int| 0 <= i < a.len() ==> white_space(#[trigger] a[i]),
        rest.len() > 0,
        !white_space(rest[0]),
    ensures
        trim_start(a + rest) == rest,
    decreases a.len(),
{
    if a.len() == 0 {
        assert(a + rest =~= rest);
    } else {
        assert(white_space(a[0]));
        assert((a + rest)[0] == a[0]);
        assert((a + rest).drop_first() =~= a.drop_first() + rest);
        assert forall|i: int| 0 <= i < a.drop_first().len() implies white_space(
            #[trigger] a.drop_first()[i],
        ) by {
            assert(a[i + 1] == a.drop_first()[i]);
        }
        lemma_start_trimmed(a.drop_first(), rest);
    }
}

/// White space behind something else goes.
pub proof fn lemma_end_trimmed(b: Seq<char>, c: Seq<char>)
    requires
        forall|i: int| 0 <= i < c.len() ==> white_space(#[trigger] c[i]),
        b.len() > 0,
        !white_space(b.last()),
    ensures
        trim_end(b + c) == b,
    decreases c.len(),
{
    if c.len() == 0 {
        assert(b + c =~= b);
    } else {
        assert(white_space(c.last()));
        assert((b + c).last() == c.last());
        assert((b + c).drop_last() =~= b + c.drop_last());
        lemma_end_trimmed(b, c.drop_last());
    }
}

} // verus!
