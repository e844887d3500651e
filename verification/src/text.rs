//! Character and sequence utilities shared by the store parser and the
//! path generator: whitespace trimming, separator splitting, line splitting,
//! ASCII lowercasing and decimal rendering of integers.
use vstd::prelude::*;

verus! {

/// The Unicode `White_Space` code points, as documented for
/// `char::is_whitespace`.
pub open spec fn spec_is_space(c: char) -> bool {
    c == '\u{0009}' || c == '\u{000A}' || c == '\u{000B}' || c == '\u{000C}'
        || c == '\u{000D}' || c == ' ' || c == '\u{0085}' || c == '\u{00A0}'
        || c == '\u{1680}' || ('\u{2000}' <= c && c <= '\u{200A}') || c == '\u{2028}'
        || c == '\u{2029}' || c == '\u{202F}' || c == '\u{205F}' || c == '\u{3000}'
}

/// Whether `c` is a whitespace character.
pub fn is_space_char(c: char) -> (r: bool)
    ensures
        r == spec_is_space(c),
{
    c == '\u{0009}' || c == '\u{000A}' || c == '\u{000B}' || c == '\u{000C}'
        || c == '\u{000D}' || c == ' ' || c == '\u{0085}' || c == '\u{00A0}'
        || c == '\u{1680}' || ('\u{2000}' <= c && c <= '\u{200A}') || c == '\u{2028}'
        || c == '\u{2029}' || c == '\u{202F}' || c == '\u{205F}' || c == '\u{3000}'
}

/// The sequence with leading whitespace removed.
pub open spec fn spec_trim_start(s: Seq<char>) -> Seq<char>
    decreases s.len(),
{
    if s.len() > 0 && spec_is_space(s[0]) {
        spec_trim_start(s.drop_first())
    } else {
        s
    }
}

/// The sequence with trailing whitespace removed.
pub open spec fn spec_trim_end(s: Seq<char>) -> Seq<char>
    decreases s.len(),
{
    if s.len() > 0 && spec_is_space(s.last()) {
        spec_trim_end(s.drop_last())
    } else {
        s
    }
}

/// The sequence with leading and trailing whitespace removed.
pub open spec fn spec_trim(s: Seq<char>) -> Seq<char> {
    spec_trim_end(spec_trim_start(s))
}

proof fn lemma_trim_start_skip(s: Seq<char>, k: int)
    requires
        0 <= k <= s.len(),
        forall|i: int| 0 <= i < k ==> spec_is_space(s[i]),
        k == s.len() || !spec_is_space(s[k]),
    ensures
        spec_trim_start(s) == s.skip(k),
    decreases k,
{
    if k == 0 {
        assert(s.skip(0) == s);
    } else {
        lemma_trim_start_skip(s.drop_first(), k - 1);
        assert(s.drop_first().skip(k - 1) == s.skip(k));
    }
}

proof fn lemma_trim_end_take(s: Seq<char>, k: int)
    requires
        0 <= k <= s.len(),
        forall|i: int| k <= i < s.len() ==> spec_is_space(s[i]),
        k == 0 || !spec_is_space(s[k - 1]),
    ensures
        spec_trim_end(s) == s.take(k),
    decreases s.len() - k,
{
    if k == s.len() {
        assert(s.take(k) == s);
    } else {
        assert(spec_is_space(s.last()));
        lemma_trim_end_take(s.drop_last(), k);
        assert(s.drop_last().take(k) == s.take(k));
    }
}

/// Remove leading and trailing whitespace from a character vector.
pub fn trim_chars(s: &Vec<char>) -> (r: Vec<char>)
    ensures
        r@ == spec_trim(s@),
{
    let n = s.len();
    let mut a: usize = 0;
    while a < n && is_space_char(s[a])
        invariant
            0 <= a <= n == s@.len(),
            forall|i: int| 0 <= i < a ==> spec_is_space(s@[i]),
        decreases n - a,
    {
        a = a + 1;
    }
    proof {
        lemma_trim_start_skip(s@, a as int);
    }
    let mut b: usize = n;
    while b > a && is_space_char(s[b - 1])
        invariant
            a <= b <= n == s@.len(),
            forall|i: int| b <= i < n ==> spec_is_space(s@[i]),
        decreases b,
    {
        b = b - 1;
    }
    let mut r: Vec<char> = Vec::new();
    let mut i: usize = a;
    while i < b
        invariant
            a <= i <= b <= s@.len(),
            r@ == s@.subrange(a as int, i as int),
        decreases b - i,
    {
        r.push(s[i]);
        assert(r@ == s@.subrange(a as int, i + 1 as int));
        i = i + 1;
    }
    proof {
        let st = s@.skip(a as int);
        if b == a {
            lemma_trim_end_take(st, 0);
        } else {
            assert(!spec_is_space(st[b - a - 1]));
            lemma_trim_end_take(st, b - a as int);
        }
        assert(st.take(b - a as int) == s@.subrange(a as int, b as int));
    }
    r
}

/// Whether `s` never holds the character `c`.
pub open spec fn spec_free_of(s: Seq<char>, c: char) -> bool {
    forall|i: int| 0 <= i < s.len() ==> s[i] != c
}

/// `spec_trim_start` drops exactly the leading run of whitespace.
pub proof fn lemma_trim_start_is_skip(s: Seq<char>)
    ensures
        spec_trim_start(s).len() <= s.len(),
        spec_trim_start(s) == s.skip(s.len() - spec_trim_start(s).len()),
        forall|i: int| 0 <= i < s.len() - spec_trim_start(s).len() ==> spec_is_space(s[i]),
        spec_trim_start(s).len() > 0 ==> !spec_is_space(spec_trim_start(s)[0]),
    decreases s.len(),
{
    if s.len() > 0 && spec_is_space(s[0]) {
        lemma_trim_start_is_skip(s.drop_first());
        let l = spec_trim_start(s).len();
        assert(s.drop_first().skip(s.len() - 1 - l) =~= s.skip(s.len() - l));
        assert forall|i: int| 0 <= i < s.len() - l implies spec_is_space(s[i]) by {
            if i > 0 {
                assert(spec_is_space(s.drop_first()[i - 1]));
            }
        }
    } else {
        assert(s.skip(0) == s);
    }
}

/// `spec_trim_end` keeps exactly the prefix before the trailing run of
/// whitespace.
pub proof fn lemma_trim_end_is_take(s: Seq<char>)
    ensures
        spec_trim_end(s).len() <= s.len(),
        spec_trim_end(s) == s.take(spec_trim_end(s).len() as int),
        forall|i: int| spec_trim_end(s).len() <= i < s.len() ==> spec_is_space(s[i]),
        spec_trim_end(s).len() > 0 ==> !spec_is_space(s[spec_trim_end(s).len() - 1]),
    decreases s.len(),
{
    if s.len() > 0 && spec_is_space(s.last()) {
        lemma_trim_end_is_take(s.drop_last());
        let l = spec_trim_end(s).len();
        assert(s.drop_last().take(l as int) =~= s.take(l as int));
        assert forall|i: int| l <= i < s.len() implies spec_is_space(s[i]) by {
            if i < s.len() - 1 {
                assert(spec_is_space(s.drop_last()[i]));
            }
        }
    } else {
        assert(s.take(s.len() as int) =~= s);
    }
}

/// Trimming the end distributes over concatenation.
pub proof fn lemma_trim_end_concat(a: Seq<char>, b: Seq<char>)
    ensures
        spec_trim_end(a + b) == if spec_trim_end(b).len() > 0 {
            a + spec_trim_end(b)
        } else {
            spec_trim_end(a)
        },
    decreases b.len(),
{
    if b.len() == 0 {
        assert(a + b =~= a);
    } else if spec_is_space(b.last()) {
        assert((a + b).last() == b.last());
        assert((a + b).drop_last() =~= a + b.drop_last());
        lemma_trim_end_concat(a, b.drop_last());
    } else {
        assert((a + b).last() == b.last());
    }
}

/// A sequence whose end trims to nothing is all whitespace, so its whole
/// trim is empty too.
pub proof fn lemma_trim_end_empty(q: Seq<char>)
    requires
        spec_trim_end(q).len() == 0,
    ensures
        spec_trim(q).len() == 0,
{
    lemma_trim_end_is_take(q);
    lemma_trim_start_is_skip(q);
    if spec_trim_start(q).len() > 0 {
        let a = q.len() - spec_trim_start(q).len();
        assert(spec_trim_start(q)[0] == q[a]);
        assert(spec_is_space(q[a]));
        assert(false);
    }
    assert(spec_trim_start(q) =~= Seq::<char>::empty());
}

/// Trimming after an end-trim is the same as trimming directly.
pub proof fn lemma_trim_of_trim_end(q: Seq<char>)
    ensures
        spec_trim(spec_trim_end(q)) == spec_trim(q),
{
    lemma_trim_end_is_take(q);
    lemma_trim_start_is_skip(q);
    let b = spec_trim_end(q).len() as int;
    let a = q.len() - spec_trim_start(q).len();
    if b == 0 {
        lemma_trim_end_empty(q);
        assert(spec_trim_end(q) =~= Seq::<char>::empty());
    } else {
        assert(!spec_is_space(q[b - 1]));
        if spec_trim_start(q).len() == 0 {
            assert(spec_is_space(q[b - 1]));
            assert(false);
        }
        assert(!spec_is_space(spec_trim_start(q)[0]));
        assert(spec_trim_start(q)[0] == q[a]);
        assert(a < b);
        let tb = q.take(b);
        lemma_trim_start_skip(tb, a);
        assert(spec_trim_start(tb) =~= q.take(b).skip(a));
        let mid = q.take(b).skip(a);
        assert(mid.len() > 0 && mid.last() == q[b - 1]);
        assert(spec_trim_end(mid) == mid);
        let sa = q.skip(a);
        lemma_trim_end_take(sa, b - a);
        assert(spec_trim_end(sa) =~= q.take(b).skip(a));
        assert(spec_trim(q) == spec_trim_end(spec_trim_start(q)));
    }
}

/// Trimming ignores one trailing carriage return.
pub proof fn lemma_trim_strip_cr(l: Seq<char>)
    ensures
        spec_trim(spec_strip_cr(l)) == spec_trim(l),
{
    if l.len() > 0 && l.last() == '\r' {
        lemma_trim_start_is_skip(l);
        let d = l.drop_last();
        if spec_trim_start(l).len() == 0 {
            lemma_trim_start_skip(d, d.len() as int);
            assert(spec_trim_start(d) =~= Seq::<char>::empty());
            assert(d.skip(d.len() as int) =~= Seq::<char>::empty());
        } else {
            let a = l.len() - spec_trim_start(l).len();
            assert(spec_trim_start(l)[0] == l[a]);
            assert(!spec_is_space(l[a]));
            assert(a < l.len() - 1);
            lemma_trim_start_skip(d, a);
            assert(spec_trim_start(d) =~= d.skip(a));
            assert(d.skip(a) =~= l.skip(a).drop_last());
            let y = l.skip(a);
            assert(y.last() == '\r');
            assert(spec_trim_end(y) == spec_trim_end(y.drop_last()));
        }
    }
}

/// Index of the first separator in `s`, or `s.len()` if there is none.
pub open spec fn first_sep(s: Seq<char>, sep: char) -> int
    decreases s.len(),
{
    if s.len() == 0 {
        0
    } else if s[0] == sep {
        0
    } else {
        1 + first_sep(s.drop_first(), sep)
    }
}

pub proof fn lemma_first_sep_bounds(s: Seq<char>, sep: char)
    ensures
        0 <= first_sep(s, sep) <= s.len(),
        first_sep(s, sep) < s.len() ==> s[first_sep(s, sep)] == sep,
        forall|i: int| 0 <= i < first_sep(s, sep) ==> s[i] != sep,
    decreases s.len(),
{
    if s.len() > 0 && s[0] != sep {
        lemma_first_sep_bounds(s.drop_first(), sep);
        assert forall|i: int| 0 <= i < first_sep(s, sep) implies s[i] != sep by {
            if i > 0 {
                assert(s.drop_first()[i - 1] != sep);
            }
        }
    }
}

/// The pieces of `s` between occurrences of `sep`, in order. Always
/// non-empty; empty pieces are kept.
pub open spec fn spec_split(s: Seq<char>, sep: char) -> Seq<Seq<char>>
    decreases s.len(),
{
    let i = first_sep(s, sep);
    if !(0 <= i < s.len()) {
        seq![s]
    } else {
        seq![s.take(i)] + spec_split(s.skip(i + 1), sep)
    }
}

/// A prefix free of the separator shifts the first separator position.
pub proof fn lemma_first_sep_prefix(p: Seq<char>, rest: Seq<char>, sep: char)
    requires
        forall|i: int| 0 <= i < p.len() ==> p[i] != sep,
    ensures
        first_sep(p + rest, sep) == p.len() + first_sep(rest, sep),
    decreases p.len(),
{
    if p.len() == 0 {
        assert(p + rest == rest);
    } else {
        assert((p + rest)[0] == p[0]);
        lemma_first_sep_prefix(p.drop_first(), rest, sep);
        assert((p + rest).drop_first() == p.drop_first() + rest);
    }
}

/// Splitting a separator-free piece followed by a separator yields that piece
/// and then the split of the remainder.
pub proof fn lemma_split_step(p: Seq<char>, rest: Seq<char>, sep: char)
    requires
        forall|i: int| 0 <= i < p.len() ==> p[i] != sep,
    ensures
        spec_split(p + seq![sep] + rest, sep) == seq![p] + spec_split(rest, sep),
{
    let s = p + seq![sep] + rest;
    lemma_first_sep_prefix(p, seq![sep] + rest, sep);
    assert(p + (seq![sep] + rest) == s);
    assert(first_sep(seq![sep] + rest, sep) == 0);
    assert(first_sep(s, sep) == p.len());
    assert(s.take(p.len() as int) == p);
    assert(s.skip(p.len() as int + 1) == rest);
}

/// Splitting a separator-free sequence yields just that sequence.
pub proof fn lemma_split_whole(p: Seq<char>, sep: char)
    requires
        forall|i: int| 0 <= i < p.len() ==> p[i] != sep,
    ensures
        spec_split(p, sep) == seq![p],
{
    lemma_first_sep_bounds(p, sep);
    if first_sep(p, sep) < p.len() {
        assert(p[first_sep(p, sep)] == sep);
        assert(false);
    }
}

/// The pieces of a split never hold the separator, and they stay free of
/// any character the whole sequence is free of.
pub proof fn lemma_split_pieces_clean(s: Seq<char>, sep: char, c: char)
    requires
        c == sep || spec_free_of(s, c),
    ensures
        forall|j: int|
            0 <= j < spec_split(s, sep).len() ==> spec_free_of(
                #[trigger] spec_split(s, sep)[j],
                c,
            ),
    decreases s.len(),
{
    lemma_first_sep_bounds(s, sep);
    let fi = first_sep(s, sep);
    if 0 <= fi < s.len() {
        lemma_split_pieces_clean(s.skip(fi + 1), sep, c);
        let ps = spec_split(s, sep);
        assert forall|j: int| 0 <= j < ps.len() implies spec_free_of(#[trigger] ps[j], c) by {
            if j == 0 {
                assert(ps[0] == s.take(fi));
                assert forall|i: int| 0 <= i < fi implies s.take(fi)[i] != c by {
                    assert(s.take(fi)[i] == s[i]);
                    if c == sep {
                        assert(s[i] != sep);
                    }
                }
            } else {
                assert(ps[j] == spec_split(s.skip(fi + 1), sep)[j - 1]);
                if c != sep {
                    assert forall|i: int| 0 <= i < s.skip(fi + 1).len() implies #[trigger] s.skip(
                        fi + 1,
                    )[i] != c by {
                        assert(s.skip(fi + 1)[i] == s[i + fi + 1]);
                    }
                }
            }
        }
    } else {
        let ps = spec_split(s, sep);
        assert(ps == seq![s]);
        if c == sep {
            assert forall|i: int| 0 <= i < s.len() implies s[i] != c by {
                assert(0 <= i < fi);
            }
        }
    }
}

/// A newline-free piece followed by a newline starts the line list.
pub proof fn lemma_lines_step(x: Seq<char>, y: Seq<char>)
    requires
        spec_free_of(x, '\n'),
    ensures
        spec_lines(x + seq!['\n'] + y) == seq![spec_strip_cr(x)] + spec_lines(y),
{
    lemma_split_step(x, y, '\n');
    let raw = spec_split(x + seq!['\n'] + y, '\n');
    let rawy = spec_split(y, '\n');
    assert(raw == seq![x] + rawy);
    assert(rawy.len() >= 1) by {
        lemma_first_sep_bounds(y, '\n');
    }
    assert(raw.last() == rawy.last());
    let strip = |l: Seq<char>| spec_strip_cr(l);
    if rawy.last().len() == 0 {
        assert(raw.drop_last() =~= seq![x] + rawy.drop_last());
        assert((seq![x] + rawy.drop_last()).map_values(strip) =~= seq![spec_strip_cr(x)]
            + rawy.drop_last().map_values(strip));
    } else {
        assert((seq![x] + rawy).map_values(strip) =~= seq![spec_strip_cr(x)] + rawy.map_values(
            strip,
        ));
    }
}

/// Split a character vector at every occurrence of `sep`.
pub fn split_chars(s: &Vec<char>, sep: char) -> (r: Vec<Vec<char>>)
    ensures
        r@.map_values(|p: Vec<char>| p@) == spec_split(s@, sep),
        r@.len() >= 1,
{
    let n = s.len();
    let mut done: Vec<Vec<char>> = Vec::new();
    let mut cur: Vec<char> = Vec::new();
    let ghost mut j: int = 0;
    proof {
        assert(s@.skip(0) == s@);
        assert(done@.map_values(|p: Vec<char>| p@) =~= Seq::<Seq<char>>::empty());
        assert(Seq::<Seq<char>>::empty() + spec_split(s@, sep) =~= spec_split(s@, sep));
    }
    let mut i: usize = 0;
    while i < n
        invariant
            0 <= j <= i <= n == s@.len(),
            cur@ == s@.subrange(j, i as int),
            forall|k: int| j <= k < i ==> s@[k] != sep,
            spec_split(s@, sep) == done@.map_values(|p: Vec<char>| p@) + spec_split(
                s@.skip(j),
                sep,
            ),
        decreases n - i,
    {
        let c = s[i];
        if c == sep {
            proof {
                assert(s@.skip(j) == cur@ + seq![sep] + s@.skip(i + 1));
                lemma_split_step(cur@, s@.skip(i + 1), sep);
            }
            let finished = cur;
            done.push(finished);
            cur = Vec::new();
            proof {
                j = i + 1;
            }
            assert(cur@ == s@.subrange(j, i + 1 as int));
        } else {
            cur.push(c);
            assert(cur@ == s@.subrange(j, i + 1 as int));
        }
        i = i + 1;
    }
    proof {
        assert(s@.skip(j) == cur@);
        lemma_split_whole(cur@, sep);
    }
    done.push(cur);
    done
}

/// A line piece with one trailing carriage return removed.
pub open spec fn spec_strip_cr(l: Seq<char>) -> Seq<char> {
    if l.len() > 0 && l.last() == '\r' {
        l.drop_last()
    } else {
        l
    }
}

/// The lines of `text`: pieces between newline characters, each with a
/// trailing carriage return removed, without a final empty piece.
pub open spec fn spec_lines(text: Seq<char>) -> Seq<Seq<char>> {
    let raw = spec_split(text, '\n');
    let kept = if raw.len() > 0 && raw.last().len() == 0 {
        raw.drop_last()
    } else {
        raw
    };
    kept.map_values(|l: Seq<char>| spec_strip_cr(l))
}

/// Split text into lines.
pub fn lines_of(s: &Vec<char>) -> (r: Vec<Vec<char>>)
    ensures
        r@.map_values(|p: Vec<char>| p@) == spec_lines(s@),
{
    let mut raw = split_chars(s, '\n');
    let ghost raw0 = raw@.map_values(|p: Vec<char>| p@);
    if raw[raw.len() - 1].len() == 0 {
        let _ = raw.pop();
        proof {
            assert(raw@.map_values(|p: Vec<char>| p@) =~= raw0.drop_last());
        }
    }
    let ghost kept = raw@.map_values(|p: Vec<char>| p@);
    let mut r: Vec<Vec<char>> = Vec::new();
    let mut i: usize = 0;
    while i < raw.len()
        invariant
            0 <= i <= raw@.len(),
            kept == raw@.map_values(|p: Vec<char>| p@),
            r@.map_values(|p: Vec<char>| p@) == kept.take(i as int).map_values(
                |l: Seq<char>| spec_strip_cr(l),
            ),
        decreases raw@.len() - i,
    {
        let piece = &raw[i];
        let mut line: Vec<char> = Vec::new();
        let cut = if piece.len() > 0 && piece[piece.len() - 1] == '\r' {
            piece.len() - 1
        } else {
            piece.len()
        };
        let mut k: usize = 0;
        while k < cut
            invariant
                0 <= k <= cut <= piece@.len(),
                i < raw@.len(),
                piece == &raw@[i as int],
                line@ == piece@.take(k as int),
            decreases cut - k,
        {
            line.push(piece[k]);
            assert(line@ == piece@.take(k + 1 as int));
            k = k + 1;
        }
        proof {
            if piece@.len() > 0 && piece@.last() == '\r' {
                assert(piece@.take(cut as int) =~= piece@.drop_last());
            } else {
                assert(piece@.take(cut as int) =~= piece@);
            }
            assert(line@ == spec_strip_cr(kept[i as int]));
        }
        let ghost prevv = r@;
        r.push(line);
        proof {
            prevv.lemma_push_map_commute(|p: Vec<char>| p@, line);
            kept.lemma_map_take_succ(|l: Seq<char>| spec_strip_cr(l), i as int);
        }
        i = i + 1;
    }
    proof {
        assert(kept.take(kept.len() as int) == kept);
    }
    r
}

/// Lowercase mapping for ASCII letters; other characters are unchanged.
pub open spec fn spec_ascii_lower_char(c: char) -> char {
    if c == 'A' { 'a' } else if c == 'B' { 'b' } else if c == 'C' { 'c' }
    else if c == 'D' { 'd' } else if c == 'E' { 'e' } else if c == 'F' { 'f' }
    else if c == 'G' { 'g' } else if c == 'H' { 'h' } else if c == 'I' { 'i' }
    else if c == 'J' { 'j' } else if c == 'K' { 'k' } else if c == 'L' { 'l' }
    else if c == 'M' { 'm' } else if c == 'N' { 'n' } else if c == 'O' { 'o' }
    else if c == 'P' { 'p' } else if c == 'Q' { 'q' } else if c == 'R' { 'r' }
    else if c == 'S' { 's' } else if c == 'T' { 't' } else if c == 'U' { 'u' }
    else if c == 'V' { 'v' } else if c == 'W' { 'w' } else if c == 'X' { 'x' }
    else if c == 'Y' { 'y' } else if c == 'Z' { 'z' } else { c }
}

/// ASCII lowercase of a whole sequence.
pub open spec fn spec_ascii_lower(s: Seq<char>) -> Seq<char> {
    s.map_values(|c: char| spec_ascii_lower_char(c))
}

/// Lowercase an ASCII letter; leave any other character unchanged.
pub fn ascii_lower_char(c: char) -> (r: char)
    ensures
        r == spec_ascii_lower_char(c),
{
    match c {
        'A' => 'a', 'B' => 'b', 'C' => 'c', 'D' => 'd', 'E' => 'e', 'F' => 'f',
        'G' => 'g', 'H' => 'h', 'I' => 'i', 'J' => 'j', 'K' => 'k', 'L' => 'l',
        'M' => 'm', 'N' => 'n', 'O' => 'o', 'P' => 'p', 'Q' => 'q', 'R' => 'r',
        'S' => 's', 'T' => 't', 'U' => 'u', 'V' => 'v', 'W' => 'w', 'X' => 'x',
        'Y' => 'y', 'Z' => 'z',
        _ => c,
    }
}

/// Whether two character vectors hold the same characters.
pub fn chars_eq(a: &Vec<char>, b: &Vec<char>) -> (r: bool)
    ensures
        r == (a@ == b@),
{
    if a.len() != b.len() {
        assert(a@.len() != b@.len());
        return false;
    }
    let mut i: usize = 0;
    while i < a.len()
        invariant
            0 <= i <= a@.len() == b@.len(),
            forall|k: int| 0 <= k < i ==> a@[k] == b@[k],
        decreases a@.len() - i,
    {
        if a[i] != b[i] {
            return false;
        }
        i = i + 1;
    }
    proof {
        assert(a@ =~= b@);
    }
    true
}

/// Whether `a` equals `b` up to ASCII case.
pub fn chars_eq_ignore_ascii_case(a: &Vec<char>, b: &Vec<char>) -> (r: bool)
    ensures
        r == (spec_ascii_lower(a@) == spec_ascii_lower(b@)),
{
    if a.len() != b.len() {
        assert(spec_ascii_lower(a@).len() != spec_ascii_lower(b@).len());
        return false;
    }
    let mut i: usize = 0;
    while i < a.len()
        invariant
            0 <= i <= a@.len() == b@.len(),
            forall|k: int| 0 <= k < i ==> spec_ascii_lower_char(a@[k]) == spec_ascii_lower_char(
                b@[k],
            ),
        decreases a@.len() - i,
    {
        if ascii_lower_char(a[i]) != ascii_lower_char(b[i]) {
            assert(spec_ascii_lower(a@)[i as int] != spec_ascii_lower(b@)[i as int]);
            return false;
        }
        i = i + 1;
    }
    proof {
        assert(spec_ascii_lower(a@) =~= spec_ascii_lower(b@));
    }
    true
}

/// The decimal digit character for `d`.
pub open spec fn spec_digit(d: int) -> char {
    if d == 0 { '0' } else if d == 1 { '1' } else if d == 2 { '2' }
    else if d == 3 { '3' } else if d == 4 { '4' } else if d == 5 { '5' }
    else if d == 6 { '6' } else if d == 7 { '7' } else if d == 8 { '8' }
    else { '9' }
}

/// The decimal digits of `n`, most significant first.
pub open spec fn spec_u64_digits(n: int) -> Seq<char>
    decreases n,
{
    if n < 10 {
        seq![spec_digit(n)]
    } else {
        spec_u64_digits(n / 10).push(spec_digit(n % 10))
    }
}

/// Decimal digit text holds digit characters only.
pub proof fn lemma_u64_digits_charset(n: int)
    ensures
        forall|i: int|
            0 <= i < spec_u64_digits(n).len() ==> '0' <= #[trigger] spec_u64_digits(n)[i]
                && spec_u64_digits(n)[i] <= '9',
    decreases n,
{
    if n >= 10 {
        lemma_u64_digits_charset(n / 10);
        assert forall|i: int|
            0 <= i < spec_u64_digits(n).len() implies '0' <= #[trigger] spec_u64_digits(n)[i]
            && spec_u64_digits(n)[i] <= '9' by {
            if i < spec_u64_digits(n / 10).len() {
                assert(spec_u64_digits(n)[i] == spec_u64_digits(n / 10)[i]);
            }
        }
    }
}

fn digit_char(d: u64) -> (r: char)
    requires
        d < 10,
    ensures
        r == spec_digit(d as int),
{
    match d {
        0 => '0', 1 => '1', 2 => '2', 3 => '3', 4 => '4',
        5 => '5', 6 => '6', 7 => '7', 8 => '8', _ => '9',
    }
}

/// Append the decimal digits of `n` to `out`.
pub fn push_u64_digits(n: u64, out: &mut Vec<char>)
    ensures
        final(out)@ == old(out)@ + spec_u64_digits(n as int),
    decreases n,
{
    if n < 10 {
        out.push(digit_char(n));
    } else {
        push_u64_digits(n / 10, out);
        out.push(digit_char(n % 10));
        assert(out@ == old(out)@ + spec_u64_digits(n as int));
    }
}

/// The characters of a string slice.
pub fn str_to_chars(s: &str) -> (r: Vec<char>)
    ensures
        r@ == s@,
{
    let n = s.unicode_len();
    let mut r: Vec<char> = Vec::new();
    let mut i: usize = 0;
    while i < n
        invariant
            0 <= i <= n == s@.len(),
            r@ == s@.take(i as int),
        decreases n - i,
    {
        r.push(s.get_char(i));
        assert(r@ == s@.take(i + 1 as int));
        i = i + 1;
    }
    proof {
        assert(s@.take(n as int) == s@);
    }
    r
}

/// Relies on `String::push`: appends one character to the string.
#[verifier::external_body]
fn push_char(s: &mut String, c: char)
    ensures
        final(s)@ == old(s)@.push(c),
{
    s.push(c)
}

/// A string holding exactly the given characters.
pub fn chars_to_string(v: &Vec<char>) -> (s: String)
    ensures
        s@ == v@,
{
    let mut s = String::new();
    let mut i: usize = 0;
    while i < v.len()
        invariant
            0 <= i <= v@.len(),
            s@ == v@.take(i as int),
        decreases v@.len() - i,
    {
        push_char(&mut s, v[i]);
        assert(s@ == v@.take(i + 1 as int));
        i = i + 1;
    }
    proof {
        assert(v@.take(v@.len() as int) == v@);
    }
    s
}

} // verus!
