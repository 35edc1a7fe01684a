//! Character sequences: searching, splitting, joining and trimming.
//!
//! Every function here works on the characters of a string, held as a
//! `Vec<char>`, and is specified over `Seq<char>`.

use vstd::prelude::*;

verus! {

/// Whether a character has the Unicode property `White_Space`: the
/// controls from tab to carriage return, the space, the next line and
/// no-break space, the ogham space mark, the spaces from en quad to
/// hair space, the line and paragraph separators, the narrow no-break
/// space, the medium mathematical space and the ideographic space.
pub open spec fn white_space(c: char) -> bool {
    ||| '\u{9}' <= c <= '\u{d}'
    ||| c == '\u{20}'
    ||| c == '\u{85}'
    ||| c == '\u{a0}'
    ||| c == '\u{1680}'
    ||| '\u{2000}' <= c <= '\u{200a}'
    ||| c == '\u{2028}'
    ||| c == '\u{2029}'
    ||| c == '\u{202f}'
    ||| c == '\u{205f}'
    ||| c == '\u{3000}'
}

/// `char::is_whitespace` tells whether the character has the Unicode
/// property `White_Space`.
pub assume_specification[ char::is_whitespace ](c: char) -> (b: bool)
    ensures
        b == white_space(c),
;

/// `String::push` appends one character to the end of the string.
pub assume_specification[ String::push ](s: &mut String, c: char)
    ensures
        final(s)@ == old(s)@.push(c),
;

/// Whether `p` stands in `s` at position `i`.
pub open spec fn occurs_at(s: Seq<char>, p: Seq<char>, i: int) -> bool {
    0 <= i && i + p.len() <= s.len() && s.subrange(i, i + p.len()) == p
}

/// Whether `s` begins with `p`.
pub open spec fn starts_with(s: Seq<char>, p: Seq<char>) -> bool {
    occurs_at(s, p, 0)
}

/// Whether `p` stands somewhere in `s`.
pub open spec fn contains(s: Seq<char>, p: Seq<char>) -> bool {
    exists|i: int| occurs_at(s, p, i)
}

/// What follows the first occurrence of `p` in `s`, or `None` where
/// `p` does not stand in `s`.
pub open spec fn after_first(s: Seq<char>, p: Seq<char>) -> Option<Seq<char>>
    decreases s.len(),
{
    if occurs_at(s, p, 0) {
        Some(s.skip(p.len() as int))
    } else if s.len() == 0 {
        None
    } else {
        after_first(s.skip(1), p)
    }
}

/// The number of characters of `s` before its first `c`; the length of
/// `s` where it holds none.
pub open spec fn run_before(s: Seq<char>, c: char) -> nat
    decreases s.len(),
{
    if s.len() == 0 || s[0] == c {
        0
    } else {
        1 + run_before(s.skip(1), c)
    }
}

/// The pieces of `s` between the occurrences of `c`. There is always at
/// least one piece, and a piece may be empty.
pub open spec fn split_on(s: Seq<char>, c: char) -> Seq<Seq<char>>
    decreases s.len(),
{
    let n = run_before(s, c) as int;
    if n >= s.len() {
        seq![s]
    } else {
        seq![s.take(n)] + split_on(s.skip(n + 1), c)
    }
}

/// The number of characters at the start of `s` that are not white
/// space.
pub open spec fn word_len(s: Seq<char>) -> nat
    decreases s.len(),
{
    if s.len() == 0 || white_space(s[0]) {
        0
    } else {
        1 + word_len(s.skip(1))
    }
}

/// The maximal runs of characters of `s` that are not white space, in
/// order.
pub open spec fn words(s: Seq<char>) -> Seq<Seq<char>>
    decreases s.len(),
    via words_decreases
{
    if s.len() == 0 {
        Seq::empty()
    } else if white_space(s[0]) {
        words(s.skip(1))
    } else {
        let n = word_len(s) as int;
        seq![s.take(n)] + words(s.skip(n))
    }
}

#[via_fn]
proof fn words_decreases(s: Seq<char>) {
    lemma_word_len_bound(s);
}

/// A word is no longer than the sequence it starts.
pub proof fn lemma_word_len_bound(s: Seq<char>)
    ensures
        word_len(s) <= s.len(),
        s.len() > 0 && !white_space(s[0]) ==> word_len(s) >= 1,
    decreases s.len(),
{
    if s.len() > 0 && !white_space(s[0]) {
        lemma_word_len_bound(s.skip(1));
    }
}

/// The parts in order, with `sep` between each two neighbours.
pub open spec fn join(parts: Seq<Seq<char>>, sep: char) -> Seq<char>
    decreases parts.len(),
{
    if parts.len() == 0 {
        Seq::empty()
    } else if parts.len() == 1 {
        parts[0]
    } else {
        join(parts.drop_last(), sep).push(sep) + parts.last()
    }
}

/// `s` without the white space at its start.
pub open spec fn trim_start(s: Seq<char>) -> Seq<char>
    decreases s.len(),
{
    if s.len() > 0 && white_space(s[0]) {
        trim_start(s.skip(1))
    } else {
        s
    }
}

/// `s` without the white space at its end.
pub open spec fn trim_end(s: Seq<char>) -> Seq<char>
    decreases s.len(),
{
    if s.len() > 0 && white_space(s.last()) {
        trim_end(s.drop_last())
    } else {
        s
    }
}

/// `s` without the white space at its start and at its end.
pub open spec fn trimmed(s: Seq<char>) -> Seq<char> {
    trim_end(trim_start(s))
}

/// Whether `s` holds nothing but white space.
pub open spec fn is_blank(s: Seq<char>) -> bool {
    forall|i: int| 0 <= i < s.len() ==> white_space(#[trigger] s[i])
}

/// The views of the vectors of `v`.
pub open spec fn views(v: Seq<Vec<char>>) -> Seq<Seq<char>> {
    Seq::new(v.len(), |i: int| v[i]@)
}

/// The views of the strings of `v`.
pub open spec fn string_views(v: Seq<String>) -> Seq<Seq<char>> {
    Seq::new(v.len(), |i: int| v[i]@)
}

/// The views of the string slices of `v`.
pub open spec fn str_views(v: Seq<&str>) -> Seq<Seq<char>> {
    Seq::new(v.len(), |i: int| v[i]@)
}

/// The views of the pairs of string slices of `v`.
pub open spec fn pair_views(v: Seq<(&str, &str)>) -> Seq<(Seq<char>, Seq<char>)> {
    Seq::new(v.len(), |i: int| (v[i].0@, v[i].1@))
}

/// The characters of `s`, in order.
pub fn chars_of(s: &str) -> (v: Vec<char>)
    ensures
        v@ == s@,
{
    let mut v: Vec<char> = Vec::new();
    for c in it: s.chars()
        invariant
            v@ == s@.take(it.index() as int),
            it.seq() == s@,
    {
        v.push(c);
    }
    v
}

/// The string made of the characters of `v`, in order.
pub fn string_of(v: &Vec<char>) -> (s: String)
    ensures
        s@ == v@,
{
    let mut s = String::new();
    let mut i: usize = 0;
    while i < v.len()
        invariant
            i <= v.len(),
            s@ == v@.take(i as int),
        decreases v.len() - i,
    {
        s.push(v[i]);
        i += 1;
    }
    s
}

/// The characters of `s` from position `from` up to, not including,
/// position `to`.
pub fn piece(s: &Vec<char>, from: usize, to: usize) -> (v: Vec<char>)
    requires
        from <= to <= s.len(),
    ensures
        v@ == s@.subrange(from as int, to as int),
{
    let mut v: Vec<char> = Vec::new();
    let mut i: usize = from;
    while i < to
        invariant
            from <= i <= to <= s.len(),
            v@ == s@.subrange(from as int, i as int),
        decreases to - i,
    {
        v.push(s[i]);
        i += 1;
    }
    v
}

/// Whether `p` stands in `s` at position `i`.
pub fn matches_at(s: &Vec<char>, p: &Vec<char>, i: usize) -> (b: bool)
    ensures
        b == occurs_at(s@, p@, i as int),
{
    if p.len() > s.len() || i > s.len() - p.len() {
        return false;
    }
    let mut k: usize = 0;
    while k < p.len()
        invariant
            k <= p.len(),
            i + p.len() <= s.len(),
            s@.subrange(i as int, i + k) == p@.take(k as int),
        decreases p.len() - k,
    {
        if s[i + k] != p[k] {
            proof {
                let t = s@.subrange(i as int, i + p.len());
                assert(t[k as int] == s@[i + k]);
            }
            return false;
        }
        proof {
            assert(s@.subrange(i as int, i + k + 1) =~= s@.subrange(i as int, i + k).push(
                s@[i + k],
            ));
            assert(p@.take(k + 1) =~= p@.take(k as int).push(p@[k as int]));
        }
        k += 1;
    }
    proof {
        assert(p@.take(p.len() as int) =~= p@);
    }
    true
}

/// Whether `s` begins with `p`.
pub fn begins_with(s: &Vec<char>, p: &Vec<char>) -> (b: bool)
    ensures
        b == starts_with(s@, p@),
{
    matches_at(s, p, 0)
}

/// Whether `p` stands somewhere in `s`.
pub fn includes(s: &Vec<char>, p: &Vec<char>) -> (b: bool)
    ensures
        b == contains(s@, p@),
{
    if p.len() > s.len() {
        return false;
    }
    let last: usize = s.len() - p.len();
    let mut i: usize = 0;
    while i < last
        invariant
            i <= last,
            last == s.len() - p.len(),
            p.len() <= s.len(),
            forall|j: int| 0 <= j < i ==> !occurs_at(s@, p@, j),
        decreases last - i,
    {
        if matches_at(s, p, i) {
            return true;
        }
        i += 1;
    }
    matches_at(s, p, last)
}

/// Skipping twice is skipping once by the sum.
pub proof fn lemma_skip_skip(s: Seq<char>, a: int, b: int)
    requires
        0 <= a,
        0 <= b,
        a + b <= s.len(),
    ensures
        s.skip(a).skip(b) == s.skip(a + b),
{
    assert(s.skip(a).skip(b) =~= s.skip(a + b));
}

/// The views of a vector with one more element.
pub proof fn lemma_views_push(v: Seq<Vec<char>>, x: Vec<char>)
    ensures
        views(v.push(x)) == views(v).push(x@),
{
    assert(views(v.push(x)) =~= views(v).push(x@));
}

/// What follows the first occurrence of `p` in `s`, if there is one.
pub fn rest_after(s: &Vec<char>, p: &Vec<char>) -> (rest: Option<Vec<char>>)
    ensures
        match rest {
            Some(r) => after_first(s@, p@) == Some(r@),
            None => after_first(s@, p@) is None,
        },
{
    let mut i: usize = 0;
    proof {
        assert(s@.skip(0) =~= s@);
    }
    while i < s.len()
        invariant
            i <= s.len(),
            after_first(s@, p@) == after_first(s@.skip(i as int), p@),
        decreases s.len() - i,
    {
        let ghost here = s@.skip(i as int);
        proof {
            if i + p.len() <= s.len() {
                assert(here.subrange(0, p.len() as int) =~= s@.subrange(i as int, i + p.len()));
            }
        }
        if matches_at(s, p, i) {
            proof {
                assert(here.skip(p.len() as int) =~= s@.subrange(
                    i + p.len(),
                    s.len() as int,
                ));
            }
            return Some(piece(s, i + p.len(), s.len()));
        }
        proof {
            lemma_skip_skip(s@, i as int, 1);
        }
        i += 1;
    }
    let ghost end = s@.skip(i as int);
    if p.len() == 0 {
        proof {
            assert(end.subrange(0, 0) =~= p@);
            assert(end.skip(0) =~= Seq::<char>::empty());
        }
        Some(Vec::new())
    } else {
        None
    }
}

/// There is something after a first occurrence exactly where there is
/// an occurrence.
pub proof fn lemma_after_first_found(s: Seq<char>, p: Seq<char>)
    ensures
        after_first(s, p) is Some <==> contains(s, p),
    decreases s.len(),
{
    if occurs_at(s, p, 0) {
    } else if s.len() == 0 {
        assert forall|i: int| !occurs_at(s, p, i) by {
            if occurs_at(s, p, i) {
                assert(i == 0);
            }
        }
    } else {
        let rest = s.skip(1);
        lemma_after_first_found(rest, p);
        if contains(rest, p) {
            let i = choose|i: int| occurs_at(rest, p, i);
            assert(rest.subrange(i, i + p.len()) =~= s.subrange(i + 1, i + 1 + p.len()));
            assert(occurs_at(s, p, i + 1));
        }
        if contains(s, p) {
            let i = choose|i: int| occurs_at(s, p, i);
            assert(i > 0);
            assert(rest.subrange(i - 1, i - 1 + p.len()) =~= s.subrange(i, i + p.len()));
            assert(occurs_at(rest, p, i - 1));
        }
    }
}

/// Where the first `c` of `s` stands, given the characters before it.
pub proof fn lemma_run_before(s: Seq<char>, c: char, n: int)
    requires
        0 <= n <= s.len(),
        forall|k: int| 0 <= k < n ==> s[k] != c,
        n < s.len() ==> s[n] == c,
    ensures
        run_before(s, c) == n,
    decreases n,
{
    if n > 0 {
        lemma_run_before(s.skip(1), c, n - 1);
    }
}

/// The pieces of `s` between the occurrences of `c`.
pub fn split(s: &Vec<char>, c: char) -> (parts: Vec<Vec<char>>)
    ensures
        views(parts@) == split_on(s@, c),
{
    let mut parts: Vec<Vec<char>> = Vec::new();
    let mut start: usize = 0;
    let mut i: usize = 0;
    proof {
        assert(s@.skip(0) =~= s@);
        assert(views(parts@) + split_on(s@, c) =~= split_on(s@, c));
    }
    while i < s.len()
        invariant
            start <= i <= s.len(),
            split_on(s@, c) == views(parts@) + split_on(s@.skip(start as int), c),
            forall|k: int| start <= k < i ==> s@[k] != c,
        decreases s.len() - i,
    {
        if s[i] == c {
            let part = piece(s, start, i);
            proof {
                let rest = s@.skip(start as int);
                lemma_run_before(rest, c, i - start);
                assert(rest.take(i - start) =~= part@);
                lemma_skip_skip(s@, start as int, i - start + 1);
                lemma_views_push(parts@, part);
                assert(views(parts@) + (seq![part@] + split_on(s@.skip(i + 1), c))
                    =~= views(parts@).push(part@) + split_on(s@.skip(i + 1), c));
            }
            parts.push(part);
            start = i + 1;
        }
        i += 1;
    }
    let part = piece(s, start, s.len());
    proof {
        let rest = s@.skip(start as int);
        lemma_run_before(rest, c, s.len() - start);
        assert(rest =~= part@);
        lemma_views_push(parts@, part);
        assert(views(parts@) + seq![part@] =~= views(parts@).push(part@));
    }
    parts.push(part);
    parts
}

/// How long the word at the start of `s` is, given its characters.
pub proof fn lemma_word_len(s: Seq<char>, n: int)
    requires
        0 <= n <= s.len(),
        forall|k: int| 0 <= k < n ==> !white_space(s[k]),
        n < s.len() ==> white_space(s[n]),
    ensures
        word_len(s) == n,
    decreases n,
{
    if n > 0 {
        lemma_word_len(s.skip(1), n - 1);
    }
}

/// The maximal runs of characters of `s` that are not white space.
pub fn split_words(s: &Vec<char>) -> (out: Vec<Vec<char>>)
    ensures
        views(out@) == words(s@),
{
    let mut out: Vec<Vec<char>> = Vec::new();
    let mut i: usize = 0;
    proof {
        assert(s@.skip(0) =~= s@);
        assert(views(out@) + words(s@) =~= words(s@));
    }
    while i < s.len()
        invariant
            i <= s.len(),
            words(s@) == views(out@) + words(s@.skip(i as int)),
        decreases s.len() - i,
    {
        if s[i].is_whitespace() {
            proof {
                lemma_skip_skip(s@, i as int, 1);
            }
            i += 1;
        } else {
            let start: usize = i;
            let mut j: usize = i + 1;
            while j < s.len() && !s[j].is_whitespace()
                invariant
                    start < j <= s.len(),
                    forall|k: int| start <= k < j ==> !white_space(s@[k]),
                decreases s.len() - j,
            {
                j += 1;
            }
            let word = piece(s, start, j);
            proof {
                let rest = s@.skip(start as int);
                lemma_word_len(rest, j - start);
                assert(rest.take(j - start) =~= word@);
                lemma_skip_skip(s@, start as int, j - start);
                lemma_views_push(out@, word);
                assert(views(out@) + (seq![word@] + words(s@.skip(j as int))) =~= views(
                    out@,
                ).push(word@) + words(s@.skip(j as int)));
            }
            out.push(word);
            i = j;
        }
    }
    proof {
        assert(views(out@) + words(s@.skip(i as int)) =~= views(out@));
    }
    out
}

/// The parts in order, with `sep` between each two neighbours.
pub fn join_with(parts: &Vec<Vec<char>>, sep: char) -> (v: Vec<char>)
    ensures
        v@ == join(views(parts@), sep),
{
    let mut v: Vec<char> = Vec::new();
    let mut i: usize = 0;
    while i < parts.len()
        invariant
            i <= parts.len(),
            v@ == join(views(parts@).take(i as int), sep),
        decreases parts.len() - i,
    {
        if i > 0 {
            v.push(sep);
        }
        let ghost base = v@;
        let part = &parts[i];
        let mut k: usize = 0;
        while k < part.len()
            invariant
                k <= part.len(),
                v@ == base + part@.take(k as int),
            decreases part.len() - k,
        {
            proof {
                assert(part@.take(k + 1) =~= part@.take(k as int).push(part@[k as int]));
            }
            v.push(part[k]);
            k += 1;
        }
        proof {
            let all = views(parts@);
            assert(part@.take(part.len() as int) =~= part@);
            assert(all.take(i + 1).drop_last() =~= all.take(i as int));
            assert(all.take(i + 1).last() == part@);
            if i == 0 {
                assert(base + part@ =~= part@);
            }
        }
        i += 1;
    }
    proof {
        assert(views(parts@).take(parts.len() as int) =~= views(parts@));
    }
    v
}

/// Whether `s` holds nothing but white space.
pub fn blank(s: &Vec<char>) -> (b: bool)
    ensures
        b == is_blank(s@),
{
    let mut i: usize = 0;
    while i < s.len()
        invariant
            i <= s.len(),
            forall|k: int| 0 <= k < i ==> white_space(#[trigger] s@[k]),
        decreases s.len() - i,
    {
        if !s[i].is_whitespace() {
            return false;
        }
        i += 1;
    }
    true
}

/// Leading white space does not change what is left after trimming the
/// start.
pub proof fn lemma_trim_start(s: Seq<char>, a: int)
    requires
        0 <= a <= s.len(),
        forall|k: int| 0 <= k < a ==> white_space(s[k]),
        a < s.len() ==> !white_space(s[a]),
    ensures
        trim_start(s) == s.skip(a),
    decreases a,
{
    if a > 0 {
        lemma_trim_start(s.skip(1), a - 1);
        lemma_skip_skip(s, 1, a - 1);
    } else {
        assert(s.skip(0) =~= s);
    }
}

/// Trailing white space does not change what is left after trimming the
/// end.
pub proof fn lemma_trim_end(s: Seq<char>, b: int)
    requires
        0 <= b <= s.len(),
        forall|k: int| b <= k < s.len() ==> white_space(s[k]),
        b > 0 ==> !white_space(s[b - 1]),
    ensures
        trim_end(s) == s.take(b),
    decreases s.len() - b,
{
    if b < s.len() {
        lemma_trim_end(s.drop_last(), b);
        assert(s.drop_last().take(b) =~= s.take(b));
    } else {
        assert(s.take(b) =~= s);
    }
}

/// `s` without the white space at its start and at its end. What is
/// left, if anything, begins with a character that is not white space.
pub fn trim(s: &Vec<char>) -> (v: Vec<char>)
    ensures
        v@ == trimmed(s@),
        v@.len() > 0 ==> !white_space(v@[0]),
{
    let mut a: usize = 0;
    while a < s.len() && s[a].is_whitespace()
        invariant
            a <= s.len(),
            forall|k: int| 0 <= k < a ==> white_space(s@[k]),
        decreases s.len() - a,
    {
        a += 1;
    }
    let mut b: usize = s.len();
    while b > a && s[b - 1].is_whitespace()
        invariant
            a <= b <= s.len(),
            forall|k: int| b <= k < s.len() ==> white_space(s@[k]),
        decreases b,
    {
        b -= 1;
    }
    proof {
        lemma_trim_start(s@, a as int);
        lemma_trim_end(s@.skip(a as int), b - a);
        assert(s@.skip(a as int).take(b - a) =~= s@.subrange(a as int, b as int));
    }
    piece(s, a, b)
}

/// The lines that are not blank, each reduced to its words with one
/// space between them.
pub open spec fn tidy_lines(lines: Seq<Seq<char>>) -> Seq<Seq<char>>
    decreases lines.len(),
{
    if lines.len() == 0 {
        Seq::empty()
    } else if is_blank(lines.last()) {
        tidy_lines(lines.drop_last())
    } else {
        tidy_lines(lines.drop_last()).push(join(words(lines.last()), ' '))
    }
}

/// `s` cleaned: its blank lines dropped, the white space inside each
/// other line collapsed to single spaces, the lines joined by newlines.
pub open spec fn cleaned(s: Seq<char>) -> Seq<char> {
    join(tidy_lines(split_on(s, '\n')), '\n')
}

/// The join of parts is at least as long as the first part.
pub proof fn lemma_join_first(parts: Seq<Seq<char>>, sep: char)
    requires
        parts.len() > 0,
    ensures
        join(parts, sep).len() >= parts[0].len(),
    decreases parts.len(),
{
    if parts.len() > 1 {
        lemma_join_first(parts.drop_last(), sep);
    }
}

/// Where the first line is not blank, its tidy form is the first of the
/// tidy lines.
pub proof fn lemma_tidy_first(lines: Seq<Seq<char>>)
    requires
        lines.len() > 0,
        !is_blank(lines[0]),
    ensures
        tidy_lines(lines).len() > 0,
        tidy_lines(lines)[0] == join(words(lines[0]), ' '),
    decreases lines.len(),
{
    if lines.len() > 1 {
        lemma_tidy_first(lines.drop_last());
    } else {
        assert(tidy_lines(lines.drop_last()) =~= Seq::<Seq<char>>::empty());
    }
}

/// A text that begins with a character that is not white space stays a
/// text when it is cleaned.
pub proof fn lemma_cleaned_keeps_text(s: Seq<char>)
    requires
        s.len() > 0,
        !white_space(s[0]),
    ensures
        cleaned(s).len() > 0,
{
    let lines = split_on(s, '\n');
    let first = lines[0];
    assert(first.len() > 0 && first[0] == s[0]);
    assert(!is_blank(first));
    lemma_tidy_first(lines);
    lemma_word_len_bound(first);
    lemma_join_first(words(first), ' ');
    lemma_join_first(tidy_lines(lines), '\n');
}

/// `s` cleaned: blank lines dropped, white space collapsed. A text that
/// begins with a character that is not white space stays a text.
pub fn clean(s: &Vec<char>) -> (v: Vec<char>)
    ensures
        v@ == cleaned(s@),
        s@.len() > 0 && !white_space(s@[0]) ==> v@.len() > 0,
{
    proof {
        if s@.len() > 0 && !white_space(s@[0]) {
            lemma_cleaned_keeps_text(s@);
        }
    }
    let lines = split(s, '\n');
    let mut kept: Vec<Vec<char>> = Vec::new();
    let mut i: usize = 0;
    while i < lines.len()
        invariant
            i <= lines.len(),
            views(kept@) == tidy_lines(views(lines@).take(i as int)),
        decreases lines.len() - i,
    {
        proof {
            let all = views(lines@);
            assert(all.take(i + 1).drop_last() =~= all.take(i as int));
            assert(all.take(i + 1).last() == lines@[i as int]@);
        }
        if !blank(&lines[i]) {
            let line_words = split_words(&lines[i]);
            let line = join_with(&line_words, ' ');
            proof {
                lemma_views_push(kept@, line);
            }
            kept.push(line);
        }
        i += 1;
    }
    proof {
        assert(views(lines@).take(lines.len() as int) =~= views(lines@));
    }
    join_with(&kept, '\n')
}

/// Whether two strings hold the same characters.
pub fn same_text(a: &str, b: &str) -> (same: bool)
    ensures
        same == (a@ == b@),
{
    let x = chars_of(a);
    let y = chars_of(b);
    if x.len() != y.len() {
        return false;
    }
    let mut i: usize = 0;
    while i < x.len()
        invariant
            i <= x.len(),
            x.len() == y.len(),
            x@ == a@,
            y@ == b@,
            forall|k: int| 0 <= k < i ==> x@[k] == y@[k],
        decreases x.len() - i,
    {
        if x[i] != y[i] {
            return false;
        }
        i += 1;
    }
    proof {
        assert(x@ =~= y@);
    }
    true
}

} // verus!
