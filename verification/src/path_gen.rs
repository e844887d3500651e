//! Path synthesis for custom items: a stored custom item without a
//! caller-supplied path gets a unique path `custom:<slug>-<millis>`,
//! where the slug keeps letters, digits, whitespace and hyphens of the
//! name, trims it, replaces each run of whitespace with one hyphen and
//! lowercases the result.
use vstd::prelude::*;

use crate::text::{
    chars_to_string, lemma_u64_digits_charset, push_u64_digits, spec_free_of, spec_is_space,
    spec_trim, spec_u64_digits, str_to_chars, trim_chars,
};

verus! {

/// Whether a character is a letter or digit; the result of
/// `char::is_alphanumeric` on it.
pub uninterp spec fn alphanumeric_char(c: char) -> bool;

/// Relies on `char::is_alphanumeric`: whether `c` is a Unicode letter
/// or a digit; a function of the character alone.
#[verifier::external_body]
fn is_alphanumeric_char(c: char) -> (r: bool)
    ensures
        r == alphanumeric_char(c),
{
    c.is_alphanumeric()
}

/// The lowercase form of a string; the result of `str::to_lowercase`.
pub uninterp spec fn lower_of(s: Seq<char>) -> Seq<char>;

/// Whether `c` lies in the ASCII range.
pub open spec fn spec_is_ascii_char(c: char) -> bool {
    (c as u32) < 128
}

/// Relies on `str::to_lowercase`: the result depends on the characters
/// alone; ASCII characters are lowercased letter for letter; and no
/// Unicode lowercase mapping produces a tab or a line feed, so an
/// input free of them stays free of them.
#[verifier::external_body]
fn lowercase(s: &str) -> (r: String)
    ensures
        r@ == lower_of(s@),
        (forall|i: int| 0 <= i < s@.len() ==> spec_is_ascii_char(s@[i])) ==> r@
            == crate::text::spec_ascii_lower(s@),
        spec_free_of(s@, '\t') && spec_free_of(s@, '\n') ==> spec_free_of(r@, '\t')
            && spec_free_of(r@, '\n'),
{
    s.to_lowercase()
}

/// Relies on `std::time::SystemTime::now`, `duration_since` and
/// `as_millis`: the milliseconds since the Unix epoch, zero when the
/// clock lies before it. Nothing is assumed of the value.
#[verifier::external_body]
fn now_millis() -> (t: u64)
{
    let ms = std::time::SystemTime::now()
        .duration_since(std::time::UNIX_EPOCH)
        .map(|d| d.as_millis())
        .unwrap_or(0);
    u64::try_from(ms).unwrap_or(u64::MAX)
}

/// Whether a character of the name survives sanitisation.
pub open spec fn spec_keep_char(c: char) -> bool {
    alphanumeric_char(c) || spec_is_space(c) || c == '-'
}

/// The characters of `s` that survive sanitisation, in order.
pub open spec fn spec_kept(s: Seq<char>) -> Seq<char>
    decreases s.len(),
{
    if s.len() == 0 {
        Seq::empty()
    } else {
        spec_kept(s.drop_last()) + (if spec_keep_char(s.last()) {
            seq![s.last()]
        } else {
            Seq::<char>::empty()
        })
    }
}

/// Each maximal run of whitespace becomes a single hyphen; other
/// characters stay.
pub open spec fn spec_dash_runs(s: Seq<char>) -> Seq<char>
    decreases s.len(),
{
    if s.len() == 0 {
        Seq::empty()
    } else {
        spec_dash_runs(s.drop_last()) + (if spec_is_space(s.last()) {
            if s.len() >= 2 && spec_is_space(s[s.len() - 2]) {
                Seq::<char>::empty()
            } else {
                seq!['-']
            }
        } else {
            seq![s.last()]
        })
    }
}

/// Replacing whitespace runs leaves no whitespace behind.
pub proof fn lemma_dash_runs_no_space(s: Seq<char>)
    ensures
        forall|i: int|
            0 <= i < spec_dash_runs(s).len() ==> !spec_is_space(#[trigger] spec_dash_runs(s)[i])
                && spec_dash_runs(s)[i] != '\t' && spec_dash_runs(s)[i] != '\n',
    decreases s.len(),
{
    if s.len() > 0 {
        lemma_dash_runs_no_space(s.drop_last());
        let d = spec_dash_runs(s);
        assert forall|i: int|
            0 <= i < d.len() implies !spec_is_space(#[trigger] d[i]) && d[i] != '\t' && d[i]
            != '\n' by {
            if i < spec_dash_runs(s.drop_last()).len() {
                assert(d[i] == spec_dash_runs(s.drop_last())[i]);
            } else {
                assert(!spec_is_space('-'));
            }
        }
    }
}

/// The slug of a name, before lowercasing: sanitised, trimmed, with
/// each whitespace run turned into one hyphen.
pub open spec fn spec_slug_source(name: Seq<char>) -> Seq<char> {
    spec_dash_runs(spec_trim(spec_kept(name)))
}

/// The path generated for a custom item named `name` at time `t`.
pub open spec fn spec_custom_path(name: Seq<char>, t: u64) -> Seq<char> {
    "custom:"@ + lower_of(spec_slug_source(name)) + "-"@ + spec_u64_digits(t as int)
}

/// A freshly generated custom path: `custom:<slug>-<millis>` for the
/// clock reading at the time of the call. The path is safe for a store
/// record line: non-empty, free of tabs and line breaks, and opening
/// with a character that is neither whitespace nor a comment mark.
pub fn generate_custom_path(name: &str) -> (r: String)
    ensures
        exists|t: u64| r@ == spec_custom_path(name@, t),
        r@.len() > 0,
        spec_free_of(r@, '\t'),
        spec_free_of(r@, '\n'),
        !spec_is_space(r@[0]),
        r@[0] != '#',
{
    let chars = str_to_chars(name);
    let mut kept: Vec<char> = Vec::new();
    proof {
        assert(chars@.take(0) =~= Seq::<char>::empty());
    }
    let mut i: usize = 0;
    while i < chars.len()
        invariant
            0 <= i <= chars@.len(),
            chars@ == name@,
            kept@ == spec_kept(chars@.take(i as int)),
        decreases chars@.len() - i,
    {
        let c = chars[i];
        if is_alphanumeric_char(c) || crate::text::is_space_char(c) || c == '-' {
            kept.push(c);
        }
        proof {
            assert(chars@.take(i + 1 as int).drop_last() =~= chars@.take(i as int));
            assert(chars@.take(i + 1 as int).last() == chars@[i as int]);
        }
        i = i + 1;
    }
    proof {
        assert(chars@.take(chars@.len() as int) =~= chars@);
    }
    let trimmed = trim_chars(&kept);
    let mut dashed: Vec<char> = Vec::new();
    proof {
        assert(spec_dash_runs(trimmed@.take(0)) =~= Seq::<char>::empty());
    }
    let mut k: usize = 0;
    while k < trimmed.len()
        invariant
            0 <= k <= trimmed@.len(),
            trimmed@ == spec_trim(spec_kept(name@)),
            dashed@ == spec_dash_runs(trimmed@.take(k as int)),
        decreases trimmed@.len() - k,
    {
        let c = trimmed[k];
        if crate::text::is_space_char(c) {
            if k == 0 || !crate::text::is_space_char(trimmed[k - 1]) {
                dashed.push('-');
            }
        } else {
            dashed.push(c);
        }
        proof {
            let t1 = trimmed@.take(k + 1 as int);
            assert(t1.drop_last() =~= trimmed@.take(k as int));
            assert(t1.last() == trimmed@[k as int]);
            if k > 0 {
                assert(t1[t1.len() - 2] == trimmed@[k - 1]);
            }
        }
        k = k + 1;
    }
    proof {
        assert(trimmed@.take(trimmed@.len() as int) =~= trimmed@);
        lemma_dash_runs_no_space(trimmed@);
    }
    let sanitized = chars_to_string(&dashed);
    let low = lowercase(sanitized.as_str());
    let t = now_millis();
    let mut digits: Vec<char> = Vec::new();
    push_u64_digits(t, &mut digits);
    let mut r = String::from_str("custom:");
    r.append(low.as_str());
    r.append("-");
    r.append(chars_to_string(&digits).as_str());
    proof {
        reveal_strlit("-");
        assert("-"@ =~= Seq::<char>::empty().push('-'));
        assert(r@ == spec_custom_path(name@, t)) by {
            assert(sanitized@ == spec_slug_source(name@));
        }
        reveal_strlit("custom:");
        assert(spec_u64_digits(t as int).len() >= 1);
        assert(spec_free_of(sanitized@, '\t') && spec_free_of(sanitized@, '\n'));
        lemma_u64_digits_charset(t as int);
        assert(spec_free_of("custom:"@, '\t') && spec_free_of("custom:"@, '\n'));
        assert(spec_free_of("-"@, '\t') && spec_free_of("-"@, '\n'));
        assert(spec_free_of(digits@, '\t') && spec_free_of(digits@, '\n')) by {
            assert forall|i: int| 0 <= i < digits@.len() implies #[trigger] digits@[i] != '\t'
                && digits@[i] != '\n' by {
                assert('0' <= digits@[i] && digits@[i] <= '9');
            }
        }
        assert(spec_free_of(r@, '\t') && spec_free_of(r@, '\n')) by {
            assert forall|i: int| 0 <= i < r@.len() implies #[trigger] r@[i] != '\t' && r@[i]
                != '\n' by {
                if i < "custom:"@.len() {
                    assert(r@[i] == "custom:"@[i]);
                } else if i < "custom:"@.len() + low@.len() {
                    assert(r@[i] == low@[i - "custom:"@.len()]);
                } else if i < "custom:"@.len() + low@.len() + 1 {
                    assert(r@[i] == '-');
                } else {
                    assert(r@[i] == digits@[i - ("custom:"@.len() + low@.len() + 1)]);
                }
            }
        }
        assert(r@[0] == 'c');
        assert(!spec_is_space('c') && 'c' != '#');
    }
    r
}

} // verus!
