//! Turning free-form display names into stable, filesystem-safe slugs.

use vstd::prelude::*;

verus! {

/// What `str::to_lowercase` gives for a string that holds non-ASCII text.
pub uninterp spec fn lower_of(s: Seq<char>) -> Seq<char>;

/// What `char::is_alphanumeric` says of a non-ASCII character.
pub uninterp spec fn alnum_of(c: char) -> bool;

pub open spec fn is_ascii_char(c: char) -> bool {
    (c as u32) < 128
}

pub open spec fn all_ascii(s: Seq<char>) -> bool {
    forall|i: int| 0 <= i < s.len() ==> is_ascii_char(#[trigger] s[i])
}

pub open spec fn is_ascii_upper(c: char) -> bool {
    'A' <= c && c <= 'Z'
}

pub open spec fn is_ascii_alnum(c: char) -> bool {
    ('a' <= c && c <= 'z') || ('A' <= c && c <= 'Z') || ('0' <= c && c <= '9')
}

pub open spec fn ascii_lower_char(c: char) -> char {
    if is_ascii_upper(c) {
        ((c as u8) + 32u8) as u8 as char
    } else {
        c
    }
}

/// Lower-casing a whole string: ASCII text maps letter by letter.
pub open spec fn lowered(s: Seq<char>) -> Seq<char> {
    if all_ascii(s) {
        s.map_values(|c: char| ascii_lower_char(c))
    } else {
        lower_of(s)
    }
}

/// Whether a character counts as a letter or digit.
pub open spec fn alnum(c: char) -> bool {
    if is_ascii_char(c) {
        is_ascii_alnum(c)
    } else {
        alnum_of(c)
    }
}

/// A path separator becomes a hyphen.
pub open spec fn sep_char(c: char) -> char {
    if c == '/' || c == '\\' {
        '-'
    } else {
        c
    }
}

/// Every character that is not a letter or digit becomes a hyphen.
pub open spec fn mask_char(c: char) -> char {
    if alnum(c) {
        c
    } else {
        '-'
    }
}

/// Scans `t` left to right and keeps its hyphen-free runs, joined by single
/// hyphens. The flag says a hyphen is owed before the next kept character.
pub open spec fn squash(t: Seq<char>) -> (Seq<char>, bool)
    decreases t.len(),
{
    if t.len() == 0 {
        (Seq::empty(), false)
    } else {
        let (o, p) = squash(t.drop_last());
        let c = t.last();
        if c == '-' {
            (o, o.len() > 0)
        } else if p {
            (o.push('-').push(c), false)
        } else {
            (o.push(c), false)
        }
    }
}

pub open spec fn fallback_slug() -> Seq<char> {
    seq!['u', 'n', 'n', 'a', 'm', 'e', 'd']
}

/// The characters that the slug is built from, before runs are joined.
pub open spec fn masked(s: Seq<char>) -> Seq<char> {
    lowered(s.map_values(|c: char| sep_char(c))).map_values(|c: char| mask_char(c))
}

/// The slug of a display name.
pub open spec fn slug_of(s: Seq<char>) -> Seq<char> {
    let joined = squash(masked(s)).0;
    if joined.len() == 0 {
        fallback_slug()
    } else {
        joined
    }
}

/// A character that a slug may hold besides the hyphen.
pub open spec fn slug_char(c: char) -> bool {
    is_ascii_alnum(c) && !is_ascii_upper(c)
}

/// Hyphens and slug characters only; no leading or doubled hyphen.
pub open spec fn hyphen_runs(r: Seq<char>) -> bool {
    &&& forall|i: int| 0 <= i < r.len() ==> r[i] == '-' || slug_char(#[trigger] r[i])
    &&& r.len() > 0 ==> r[0] != '-'
    &&& forall|i: int| 0 <= i < r.len() - 1 ==> !(#[trigger] r[i] == '-' && r[i + 1] == '-')
}

/// A slug built from ASCII characters: non-empty, no trailing hyphen.
pub open spec fn is_slug_text(r: Seq<char>) -> bool {
    hyphen_runs(r) && r.len() > 0 && r.last() != '-'
}

proof fn lemma_squash_shape(t: Seq<char>)
    requires
        forall|i: int| 0 <= i < t.len() ==> t[i] == '-' || slug_char(#[trigger] t[i]),
    ensures
        hyphen_runs(squash(t).0),
        squash(t).0.len() > 0 ==> squash(t).0.last() != '-',
        squash(t).0.len() == 0 ==> !squash(t).1,
    decreases t.len(),
{
    if t.len() > 0 {
        let u = t.drop_last();
        assert forall|i: int| 0 <= i < u.len() implies u[i] == '-' || slug_char(#[trigger] u[i]) by {
            assert(u[i] == t[i]);
        }
        lemma_squash_shape(u);
        let (o, p) = squash(u);
        let c = t.last();
        assert(c == '-' || slug_char(t[t.len() - 1]));
        if c != '-' {
            if p {
                let n = o.push('-').push(c);
                assert forall|i: int| 0 <= i < n.len() - 1 implies !(#[trigger] n[i] == '-' && n[i + 1] == '-') by {
                    if i < o.len() - 1 {
                        assert(n[i] == o[i] && n[i + 1] == o[i + 1]);
                    }
                }
                assert forall|i: int| 0 <= i < n.len() implies n[i] == '-' || slug_char(#[trigger] n[i]) by {
                    if i < o.len() {
                        assert(n[i] == o[i]);
                    }
                }
            } else {
                let n = o.push(c);
                assert forall|i: int| 0 <= i < n.len() - 1 implies !(#[trigger] n[i] == '-' && n[i + 1] == '-') by {
                    assert(n[i] == o[i]);
                    if i + 1 < o.len() {
                        assert(n[i + 1] == o[i + 1]);
                    }
                }
                assert forall|i: int| 0 <= i < n.len() implies n[i] == '-' || slug_char(#[trigger] n[i]) by {
                    if i < o.len() {
                        assert(n[i] == o[i]);
                    }
                }
            }
        }
    }
}

proof fn lemma_squash_fixed(r: Seq<char>)
    requires
        hyphen_runs(r),
    ensures
        r.len() > 0 && r.last() == '-' ==> squash(r) == (r.drop_last(), true),
        !(r.len() > 0 && r.last() == '-') ==> squash(r) == (r, false),
    decreases r.len(),
{
    if r.len() > 0 {
        let u = r.drop_last();
        assert(hyphen_runs(u)) by {
            assert forall|i: int| 0 <= i < u.len() - 1 implies !(#[trigger] u[i] == '-' && u[i + 1] == '-') by {
                assert(u[i] == r[i] && u[i + 1] == r[i + 1]);
            }
            assert forall|i: int| 0 <= i < u.len() implies u[i] == '-' || slug_char(#[trigger] u[i]) by {
                assert(u[i] == r[i]);
            }
            if u.len() > 0 {
                assert(u[0] == r[0]);
            }
        }
        lemma_squash_fixed(u);
        let c = r.last();
        if u.len() == 0 {
            assert(r[0] != '-');
            assert(u.push(c) =~= r);
        } else if c == '-' {
            assert(!(r[u.len() - 1] == '-' && r[u.len() as int] == '-'));
            assert(u.last() == r[u.len() - 1]);
        } else if u.last() == '-' {
            assert(u.drop_last().push('-').push(c) =~= r);
        } else {
            assert(u.push(c) =~= r);
        }
    }
}

proof fn lemma_slug_chars_kept(r: Seq<char>)
    requires
        is_slug_text(r),
    ensures
        masked(r) == r,
{
    let spaced = r.map_values(|c: char| sep_char(c));
    assert(spaced =~= r);
    assert(all_ascii(r));
    let low = lowered(r);
    assert(low =~= r);
    assert(low.map_values(|c: char| mask_char(c)) =~= r);
}

proof fn lemma_slug_shape(s: Seq<char>)
    requires
        all_ascii(s),
    ensures
        is_slug_text(slug_of(s)),
{
    let spaced = s.map_values(|c: char| sep_char(c));
    assert(all_ascii(spaced));
    let low = lowered(spaced);
    let t = masked(s);
    assert forall|i: int| 0 <= i < t.len() implies t[i] == '-' || slug_char(#[trigger] t[i]) by {
        assert(t[i] == mask_char(low[i]));
        assert(low[i] == ascii_lower_char(spaced[i]));
    }
    lemma_squash_shape(t);
    let f = fallback_slug();
    assert(f[0] == 'u' && f[1] == 'n' && f[2] == 'n' && f[3] == 'a' && f[4] == 'm' && f[5] == 'e' && f[6] == 'd');
}

/// Normalizing a slug again leaves it as it is, for every display name
/// written in ASCII.
pub proof fn lemma_slug_idempotent(s: Seq<char>)
    requires
        all_ascii(s),
    ensures
        slug_of(slug_of(s)) == slug_of(s),
{
    let r = slug_of(s);
    lemma_slug_shape(s);
    lemma_slug_chars_kept(r);
    lemma_squash_fixed(r);
}

/// Relies on `str::chars`: the characters of the string, in order.
#[verifier::external_body]
pub(crate) fn chars_of(s: &str) -> (r: Vec<char>)
    ensures
        r@ == s@,
{
    s.chars().collect()
}

/// Relies on `String::from_iter`: a string made of the given characters.
#[verifier::external_body]
pub(crate) fn string_of(v: &Vec<char>) -> (r: String)
    ensures
        r@ == v@,
{
    v.iter().collect()
}

/// Relies on `str::to_lowercase`; on ASCII text it lowers `A`..`Z` alone.
#[verifier::external_body]
fn to_lower(v: &Vec<char>) -> (r: Vec<char>)
    ensures
        r@ == (if all_ascii(v@) {
            v@.map_values(|c: char| ascii_lower_char(c))
        } else {
            lower_of(v@)
        }),
{
    let s: String = v.iter().collect();
    s.to_lowercase().chars().collect()
}

/// Relies on `char::is_alphanumeric`; on ASCII it holds of letters and digits.
#[verifier::external_body]
fn is_alnum(c: char) -> (r: bool)
    ensures
        r == (if is_ascii_char(c) {
            is_ascii_alnum(c)
        } else {
            alnum_of(c)
        }),
{
    c.is_alphanumeric()
}

/// Normalizes a display name into a slug: separators and every other
/// character that is not a letter or digit become hyphens, the text is
/// lower-cased, and the hyphen-free runs are joined by single hyphens.
/// A name with no such run gives `unnamed`.
pub fn slugify(name: &str) -> (r: String)
    ensures
        r@ == slug_of(name@),
{
    let chars = chars_of(name);
    let mut spaced: Vec<char> = Vec::new();
    let mut i: usize = 0;
    while i < chars.len()
        invariant
            i <= chars.len(),
            spaced@.len() == i,
            forall|j: int| 0 <= j < i ==> spaced@[j] == sep_char(#[trigger] chars@[j]),
        decreases chars.len() - i,
    {
        let c = chars[i];
        if c == '/' || c == '\\' {
            spaced.push('-');
        } else {
            spaced.push(c);
        }
        i += 1;
    }
    assert(spaced@ =~= name@.map_values(|c: char| sep_char(c)));
    let lower = to_lower(&spaced);
    let mut marks: Vec<char> = Vec::new();
    i = 0;
    while i < lower.len()
        invariant
            i <= lower.len(),
            marks@.len() == i,
            forall|j: int| 0 <= j < i ==> marks@[j] == mask_char(#[trigger] lower@[j]),
        decreases lower.len() - i,
    {
        let c = lower[i];
        if is_alnum(c) {
            marks.push(c);
        } else {
            marks.push('-');
        }
        i += 1;
    }
    assert(marks@ =~= masked(name@));
    let mut out: Vec<char> = Vec::new();
    let mut pending = false;
    i = 0;
    while i < marks.len()
        invariant
            i <= marks.len(),
            squash(marks@.subrange(0, i as int)) == (out@, pending),
        decreases marks.len() - i,
    {
        let c = marks[i];
        assert(marks@.subrange(0, i + 1).drop_last() =~= marks@.subrange(0, i as int));
        if c == '-' {
            pending = out.len() > 0;
        } else {
            if pending {
                out.push('-');
            }
            out.push(c);
            pending = false;
        }
        i += 1;
    }
    assert(marks@.subrange(0, marks@.len() as int) =~= marks@);
    if out.len() == 0 {
        let r = "unnamed".to_owned();
        proof {
            reveal_strlit("unnamed");
            assert(r@ =~= fallback_slug());
        }
        r
    } else {
        string_of(&out)
    }
}

} // verus!
