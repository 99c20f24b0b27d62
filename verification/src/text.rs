use vstd::prelude::*;
use vstd::std_specs::iter::IteratorSpec;

verus! {

/// The contents of each vector of a vector of character vectors.
pub open spec fn char_views(v: Seq<Vec<char>>) -> Seq<Seq<char>> {
    v.map_values(|x: Vec<char>| x@)
}

/// The characters of a string slice, in order.
pub fn chars_of(s: &str) -> (r: Vec<char>)
    ensures
        r@ == s@,
{
    broadcast use vstd::string::group_string_axioms;
    let mut r: Vec<char> = Vec::new();
    let mut it = s.chars();
    assert(it.remaining() == s@);
    loop
        invariant
            r@ + it.remaining() == s@,
            it.obeys_prophetic_iter_laws(),
            it.decrease() is Some,
        ensures
            r@ == s@,
        decreases it.decrease()->0,
    {
        match it.next() {
            Some(c) => {
                r.push(c);
            },
            None => {
                assert(it.remaining().len() == 0);
                assert(r@ =~= s@);
                break;
            },
        }
    }
    r
}

/// The string made of the given characters.
///
/// Trusted: collects the characters with std's `FromIterator<&char>` for
/// `String`, whose result holds exactly those characters in order.
#[verifier::external_body]
pub(crate) fn string_of(v: &[char]) -> (r: String)
    ensures
        r@ == v@,
{
    v.iter().collect()
}

// ------------------------------------------------------------ split / join

/// The pieces of `s` between occurrences of `sep` (as `str::split` gives them):
/// always at least one piece, empty pieces kept.
pub open spec fn split_on(s: Seq<char>, sep: char) -> Seq<Seq<char>>
    decreases s.len(),
{
    if s.len() == 0 {
        seq![seq![]]
    } else {
        let p = split_on(s.drop_last(), sep);
        if s.last() == sep {
            p.push(seq![])
        } else {
            p.update(p.len() - 1, p.last().push(s.last()))
        }
    }
}

/// The pieces joined back, with `sep` between neighbours (as `join` gives them).
pub open spec fn join_with(ps: Seq<Seq<char>>, sep: char) -> Seq<char>
    decreases ps.len(),
{
    if ps.len() == 0 {
        seq![]
    } else if ps.len() == 1 {
        ps[0]
    } else {
        join_with(ps.drop_last(), sep).push(sep) + ps.last()
    }
}

/// Splitting gives at least one piece, and at least two when `sep` occurs.
pub proof fn lemma_split_len(s: Seq<char>, sep: char)
    ensures
        split_on(s, sep).len() >= 1,
        s.contains(sep) ==> split_on(s, sep).len() >= 2,
    decreases s.len(),
{
    if s.len() > 0 {
        lemma_split_len(s.drop_last(), sep);
        if s.contains(sep) && s.last() != sep {
            let k = choose|k: int| 0 <= k < s.len() && s[k] == sep;
            assert(s.drop_last()[k] == sep);
        }
    }
}

/// Joining the pieces of a split gives the text back.
pub proof fn lemma_join_split(s: Seq<char>, sep: char)
    ensures
        join_with(split_on(s, sep), sep) == s,
    decreases s.len(),
{
    if s.len() > 0 {
        let t = s.drop_last();
        lemma_join_split(t, sep);
        lemma_split_len(t, sep);
        let p = split_on(t, sep);
        if s.last() == sep {
            assert(split_on(s, sep).drop_last() =~= p);
            assert(join_with(split_on(s, sep), sep) =~= s);
        } else {
            let q = p.update(p.len() - 1, p.last().push(s.last()));
            assert(q.drop_last() =~= p.drop_last());
            if p.len() == 1 {
                assert(join_with(q, sep) =~= s);
            } else {
                assert(join_with(q, sep) == join_with(p.drop_last(), sep).push(sep) + q.last());
                assert(join_with(p, sep) == join_with(p.drop_last(), sep).push(sep) + p.last());
                assert(q.last() == p.last().push(s.last()));
                assert(s =~= t.push(s.last()));
                let x = join_with(p.drop_last(), sep).push(sep);
                assert(x + p.last().push(s.last()) =~= (x + p.last()).push(s.last()));
                assert(join_with(q, sep) =~= s);
            }
        }
    }
}

/// The pieces of `s` between occurrences of `sep`.
pub fn split_chars(s: &Vec<char>, sep: char) -> (r: Vec<Vec<char>>)
    ensures
        char_views(r@) == split_on(s@, sep),
{
    let mut r: Vec<Vec<char>> = Vec::new();
    r.push(Vec::new());
    let mut i: usize = 0;
    assert(char_views(r@) =~= split_on(s@.take(0), sep));
    while i < s.len()
        invariant
            i <= s@.len(),
            char_views(r@) == split_on(s@.take(i as int), sep),
            r@.len() >= 1,
        decreases s@.len() - i,
    {
        let c = s[i];
        proof {
            lemma_split_len(s@.take(i as int), sep);
            assert(s@.take(i + 1).drop_last() =~= s@.take(i as int));
        }
        if c == sep {
            r.push(Vec::new());
        } else {
            let last = r.len() - 1;
            r[last].push(c);
        }
        assert(char_views(r@) =~= split_on(s@.take(i + 1), sep));
        i = i + 1;
    }
    assert(s@.take(i as int) =~= s@);
    r
}

/// The pieces joined with `sep` between neighbours.
pub fn join_chars(ps: &[Vec<char>], sep: char) -> (r: Vec<char>)
    ensures
        r@ == join_with(char_views(ps@), sep),
{
    let mut r: Vec<char> = Vec::new();
    let mut i: usize = 0;
    assert(char_views(ps@).take(0) =~= seq![]);
    while i < ps.len()
        invariant
            i <= ps@.len(),
            r@ == join_with(char_views(ps@).take(i as int), sep),
        decreases ps@.len() - i,
    {
        let ghost before = r@;
        if i > 0 {
            r.push(sep);
        }
        let piece = &ps[i];
        let mut j: usize = 0;
        while j < piece.len()
            invariant
                j <= piece@.len(),
                r@ == (if i > 0 { before.push(sep) } else { before }) + piece@.take(j as int),
            decreases piece@.len() - j,
        {
            r.push(piece[j]);
            assert(piece@.take(j + 1) =~= piece@.take(j as int).push(piece@[j as int]));
            j = j + 1;
        }
        assert(piece@.take(j as int) =~= piece@);
        proof {
            let v = char_views(ps@);
            assert(v.take(i + 1).drop_last() =~= v.take(i as int));
            assert(v.take(i + 1).last() == piece@);
            if i == 0 {
                assert(before =~= seq![]);
                assert(r@ =~= join_with(v.take(i + 1), sep));
            } else {
                assert(r@ =~= join_with(v.take(i + 1), sep));
            }
        }
        i = i + 1;
    }
    assert(char_views(ps@).take(i as int) =~= char_views(ps@));
    r
}

// ------------------------------------------------------------ whitespace

/// ASCII whitespace as `u8::is_ascii_whitespace` has it: space, tab, line feed,
/// form feed, carriage return.
pub open spec fn is_ascii_space(c: char) -> bool {
    c == ' ' || c == '\t' || c == '\n' || c == '\x0C' || c == '\r'
}

/// Whitespace as `char::is_whitespace` has it (the Unicode White_Space property).
pub open spec fn is_unicode_space(c: char) -> bool {
    ('\t' <= c && c <= '\r') || c == ' ' || c == '\u{85}' || c == '\u{A0}' || c == '\u{1680}'
        || ('\u{2000}' <= c && c <= '\u{200A}') || c == '\u{2028}' || c == '\u{2029}' || c
        == '\u{202F}' || c == '\u{205F}' || c == '\u{3000}'
}

/// Whitespace of one of the two kinds.
pub open spec fn is_space(c: char, ascii: bool) -> bool {
    if ascii {
        is_ascii_space(c)
    } else {
        is_unicode_space(c)
    }
}

/// The non-empty runs of non-whitespace characters of `s`, in order (as
/// `split_whitespace`, or `split_ascii_whitespace` when `ascii`, gives them).
pub open spec fn words(s: Seq<char>, ascii: bool) -> Seq<Seq<char>>
    decreases s.len(),
{
    if s.len() == 0 {
        seq![]
    } else {
        let w = words(s.drop_last(), ascii);
        let c = s.last();
        if is_space(c, ascii) {
            w
        } else if s.len() >= 2 && !is_space(s[s.len() - 2], ascii) {
            w.update(w.len() - 1, w.last().push(c))
        } else {
            w.push(seq![c])
        }
    }
}

/// A text ending in a non-space character has a word.
pub proof fn lemma_words_nonempty(s: Seq<char>, ascii: bool)
    requires
        s.len() > 0,
        !is_space(s.last(), ascii),
    ensures
        words(s, ascii).len() >= 1,
    decreases s.len(),
{
    if s.len() >= 2 && !is_space(s[s.len() - 2], ascii) {
        lemma_words_nonempty(s.drop_last(), ascii);
    }
}

/// Whether `c` is whitespace of the given kind.
pub fn char_is_space(c: char, ascii: bool) -> (r: bool)
    ensures
        r == is_space(c, ascii),
{
    if ascii {
        c == ' ' || c == '\t' || c == '\n' || c == '\x0C' || c == '\r'
    } else {
        ('\t' <= c && c <= '\r') || c == ' ' || c == '\u{85}' || c == '\u{A0}' || c == '\u{1680}'
            || ('\u{2000}' <= c && c <= '\u{200A}') || c == '\u{2028}' || c == '\u{2029}' || c
            == '\u{202F}' || c == '\u{205F}' || c == '\u{3000}'
    }
}

/// The whitespace-separated words of `s`.
pub fn split_words(s: &Vec<char>, ascii: bool) -> (r: Vec<Vec<char>>)
    ensures
        char_views(r@) == words(s@, ascii),
{
    let mut r: Vec<Vec<char>> = Vec::new();
    let mut i: usize = 0;
    let mut in_word = false;
    assert(char_views(r@) =~= words(s@.take(0), ascii));
    while i < s.len()
        invariant
            i <= s@.len(),
            char_views(r@) == words(s@.take(i as int), ascii),
            in_word == (i > 0 && !is_space(s@[i - 1], ascii)),
        decreases s@.len() - i,
    {
        let c = s[i];
        let sp = char_is_space(c, ascii);
        proof {
            let t = s@.take(i + 1);
            assert(t.drop_last() =~= s@.take(i as int));
            assert(t.last() == c);
            if i > 0 {
                assert(t[t.len() - 2] == s@[i - 1]);
            }
            if in_word {
                lemma_words_nonempty(s@.take(i as int), ascii);
            }
        }
        if sp {
            in_word = false;
        } else if in_word {
            let last = r.len() - 1;
            r[last].push(c);
        } else {
            let word = vec![c];
            assert(word@ =~= seq![c]);
            r.push(word);
            in_word = true;
        }
        assert(char_views(r@) =~= words(s@.take(i + 1), ascii));
        i = i + 1;
    }
    assert(s@.take(i as int) =~= s@);
    r
}

// ------------------------------------------------------------ comparing

/// Whether two character sequences are equal.
pub fn chars_eq(a: &[char], b: &[char]) -> (r: bool)
    ensures
        r == (a@ == b@),
{
    if a.len() != b.len() {
        return false;
    }
    let mut i: usize = 0;
    while i < a.len()
        invariant
            a@.len() == b@.len(),
            i <= a@.len(),
            forall|k: int| 0 <= k < i ==> a@[k] == b@[k],
        decreases a@.len() - i,
    {
        if a[i] != b[i] {
            return false;
        }
        i = i + 1;
    }
    assert(a@ =~= b@);
    true
}

/// Whether the characters `a` spell the string `b`.
pub fn chars_eq_str(a: &[char], b: &str) -> (r: bool)
    ensures
        r == (a@ == b@),
{
    let bv = chars_of(b);
    chars_eq(a, bv.as_slice())
}

// ------------------------------------------------------------ replace

/// `s` with every occurrence of `pat` replaced by `rep`, scanning from the
/// left and never overlapping (as `str::replace` does for a non-empty pattern).
pub open spec fn replace_all(s: Seq<char>, pat: Seq<char>, rep: Seq<char>) -> Seq<char>
    decreases s.len(),
{
    if pat.len() == 0 || s.len() < pat.len() {
        s
    } else if s.take(pat.len() as int) == pat {
        rep + replace_all(s.skip(pat.len() as int), pat, rep)
    } else {
        seq![s[0]] + replace_all(s.skip(1), pat, rep)
    }
}

/// Whether `pat` occurs in `s` at position `i`.
fn matches_at(s: &Vec<char>, i: usize, pat: &Vec<char>) -> (r: bool)
    requires
        i <= s@.len(),
    ensures
        r == (i + pat@.len() <= s@.len() && s@.subrange(i as int, i + pat@.len()) == pat@),
{
    if pat.len() > s.len() - i {
        return false;
    }
    let n = s.len();
    let mut k: usize = 0;
    while k < pat.len()
        invariant
            n == s@.len(),
            i + pat@.len() <= s@.len(),
            k <= pat@.len(),
            forall|t: int| 0 <= t < k ==> s@[i + t] == pat@[t],
        decreases pat@.len() - k,
    {
        if s[i + k] != pat[k] {
            assert(s@.subrange(i as int, i + pat@.len())[k as int] != pat@[k as int]);
            return false;
        }
        k = k + 1;
    }
    assert(s@.subrange(i as int, i + pat@.len()) =~= pat@);
    true
}

/// `s` with every occurrence of the non-empty `pat` replaced by `rep`.
pub fn replace_chars(s: &Vec<char>, pat: &Vec<char>, rep: &Vec<char>) -> (r: Vec<char>)
    requires
        pat@.len() > 0,
    ensures
        r@ == replace_all(s@, pat@, rep@),
{
    let mut out: Vec<char> = Vec::new();
    let mut i: usize = 0;
    assert(s@.skip(0) =~= s@);
    while i < s.len()
        invariant
            pat@.len() > 0,
            i <= s@.len(),
            replace_all(s@, pat@, rep@) == out@ + replace_all(s@.skip(i as int), pat@, rep@),
        decreases s@.len() - i,
    {
        let ghost t = s@.skip(i as int);
        if matches_at(s, i, pat) {
            assert(t.take(pat@.len() as int) =~= s@.subrange(i as int, i + pat@.len()));
            assert(t.skip(pat@.len() as int) =~= s@.skip(i + pat@.len()));
            let mut k: usize = 0;
            let ghost before = out@;
            while k < rep.len()
                invariant
                    k <= rep@.len(),
                    out@ == before + rep@.take(k as int),
                decreases rep@.len() - k,
            {
                out.push(rep[k]);
                assert(rep@.take(k + 1) =~= rep@.take(k as int).push(rep@[k as int]));
                k = k + 1;
            }
            assert(rep@.take(k as int) =~= rep@);
            assert(out@ + replace_all(s@.skip(i + pat@.len()), pat@, rep@) =~= before + (rep@
                + replace_all(t.skip(pat@.len() as int), pat@, rep@)));
            i = i + pat.len();
        } else {
            proof {
                if t.len() >= pat@.len() {
                    assert(t.take(pat@.len() as int) =~= s@.subrange(i as int, i + pat@.len()));
                }
            }
            assert(t.skip(1) =~= s@.skip(i + 1));
            let ghost before = out@;
            out.push(s[i]);
            proof {
                if t.len() < pat@.len() {
                    assert(replace_all(t, pat@, rep@) == t);
                    assert(replace_all(t.skip(1), pat@, rep@) == t.skip(1));
                    assert(t =~= seq![t[0]] + t.skip(1));
                }
            }
            assert(out@ + replace_all(s@.skip(i + 1), pat@, rep@) =~= before + (seq![t[0]]
                + replace_all(t.skip(1), pat@, rep@)));
            i = i + 1;
        }
    }
    assert(s@.skip(i as int) =~= seq![]);
    assert(out@ + replace_all(s@.skip(i as int), pat@, rep@) =~= out@);
    out
}

// ------------------------------------------------------------ trim

/// `s` without its leading Unicode whitespace.
pub open spec fn trim_start(s: Seq<char>) -> Seq<char>
    decreases s.len(),
{
    if s.len() > 0 && is_unicode_space(s[0]) {
        trim_start(s.drop_first())
    } else {
        s
    }
}

/// `s` without its trailing Unicode whitespace.
pub open spec fn trim_end(s: Seq<char>) -> Seq<char>
    decreases s.len(),
{
    if s.len() > 0 && is_unicode_space(s.last()) {
        trim_end(s.drop_last())
    } else {
        s
    }
}

/// `s` without leading and trailing Unicode whitespace (as `str::trim`).
pub open spec fn trim(s: Seq<char>) -> Seq<char> {
    trim_end(trim_start(s))
}

/// `s` without leading and trailing Unicode whitespace.
pub fn trim_chars(s: &Vec<char>) -> (r: Vec<char>)
    ensures
        r@ == trim(s@),
{
    let mut a: usize = 0;
    assert(s@.skip(0) =~= s@);
    while a < s.len() && char_is_space(s[a], false)
        invariant
            a <= s@.len(),
            trim_start(s@) == trim_start(s@.skip(a as int)),
        decreases s@.len() - a,
    {
        assert(s@.skip(a as int).drop_first() =~= s@.skip(a + 1));
        a = a + 1;
    }
    let mut b: usize = s.len();
    assert(s@.skip(a as int) =~= s@.subrange(a as int, b as int));
    while b > a && char_is_space(s[b - 1], false)
        invariant
            a <= b <= s@.len(),
            trim(s@) == trim_end(s@.subrange(a as int, b as int)),
        decreases b,
    {
        assert(s@.subrange(a as int, b as int).drop_last() =~= s@.subrange(a as int, b - 1));
        b = b - 1;
    }
    let mut r: Vec<char> = Vec::new();
    let mut k: usize = a;
    while k < b
        invariant
            a <= k <= b <= s@.len(),
            r@ == s@.subrange(a as int, k as int),
        decreases b - k,
    {
        r.push(s[k]);
        assert(s@.subrange(a as int, k + 1) =~= s@.subrange(a as int, k as int).push(s@[k as int]));
        k = k + 1;
    }
    r
}

// ------------------------------------------------------------ split once

/// The position of the first `c` in `s`, if any.
pub open spec fn first_index(s: Seq<char>, c: char) -> Option<nat>
    decreases s.len(),
{
    if s.len() == 0 {
        None
    } else if s[0] == c {
        Some(0)
    } else {
        match first_index(s.drop_first(), c) {
            Some(i) => Some(i + 1),
            None => None,
        }
    }
}

/// The first `c` in `s` is at the position found, and none comes before it.
pub proof fn lemma_first_index(s: Seq<char>, c: char)
    ensures
        match first_index(s, c) {
            Some(i) => i < s.len() && s[i as int] == c && forall|k: int| 0 <= k < i ==> s[k] != c,
            None => forall|k: int| 0 <= k < s.len() ==> s[k] != c,
        },
    decreases s.len(),
{
    if s.len() > 0 && s[0] != c {
        lemma_first_index(s.drop_first(), c);
        assert forall|k: int| 1 <= k < s.len() implies s[k] == s.drop_first()[k - 1] by {}
    }
}

/// The position of the first `c` in `s`, if any.
pub fn find_char(s: &Vec<char>, c: char) -> (r: Option<usize>)
    ensures
        match r {
            Some(i) => first_index(s@, c) == Some(i as nat),
            None => first_index(s@, c) is None,
        },
{
    let mut i: usize = 0;
    while i < s.len()
        invariant
            i <= s@.len(),
            forall|k: int| 0 <= k < i ==> s@[k] != c,
        decreases s@.len() - i,
    {
        if s[i] == c {
            proof {
                lemma_first_index(s@, c);
                match first_index(s@, c) {
                    Some(j) => {
                        assert(j == i);
                    },
                    None => {
                        assert(s@[i as int] != c);
                    },
                }
            }
            return Some(i);
        }
        i = i + 1;
    }
    proof {
        lemma_first_index(s@, c);
        match first_index(s@, c) {
            Some(j) => {
                assert(s@[j as int] != c);
            },
            None => {},
        }
    }
    None
}

/// The characters of `s` from `a` up to (not including) `b`.
pub fn sub_chars(s: &Vec<char>, a: usize, b: usize) -> (r: Vec<char>)
    requires
        a <= b <= s@.len(),
    ensures
        r@ == s@.subrange(a as int, b as int),
{
    let mut r: Vec<char> = Vec::new();
    let mut k: usize = a;
    while k < b
        invariant
            a <= k <= b <= s@.len(),
            r@ == s@.subrange(a as int, k as int),
        decreases b - k,
    {
        r.push(s[k]);
        assert(s@.subrange(a as int, k + 1) =~= s@.subrange(a as int, k as int).push(s@[k as int]));
        k = k + 1;
    }
    r
}

// ------------------------------------------------------------ line breaks

/// `s` without any '\n' or '\r'.
pub open spec fn strip_breaks(s: Seq<char>) -> Seq<char>
    decreases s.len(),
{
    if s.len() == 0 {
        seq![]
    } else if s.last() == '\n' || s.last() == '\r' {
        strip_breaks(s.drop_last())
    } else {
        strip_breaks(s.drop_last()).push(s.last())
    }
}

/// A line as typed: the text without any '\n' or '\r' characters.
pub fn strip_line_breaks(s: &str) -> (r: String)
    ensures
        r@ == strip_breaks(s@),
{
    let v = chars_of(s);
    let mut out: Vec<char> = Vec::new();
    let mut i: usize = 0;
    while i < v.len()
        invariant
            v@ == s@,
            i <= v@.len(),
            out@ == strip_breaks(v@.take(i as int)),
        decreases v@.len() - i,
    {
        assert(v@.take(i + 1).drop_last() =~= v@.take(i as int));
        let c = v[i];
        if c != '\n' && c != '\r' {
            out.push(c);
        }
        i = i + 1;
    }
    assert(v@.take(i as int) =~= v@);
    string_of(out.as_slice())
}

/// A typed answer without leading and trailing whitespace.
pub fn trim_line(s: &str) -> (r: String)
    ensures
        r@ == trim(s@),
{
    let c = chars_of(s);
    let t = trim_chars(&c);
    string_of(t.as_slice())
}

} // verus!
