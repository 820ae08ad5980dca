//! Character sequences: white space, trimming, searching, splitting,
//! joining and ordering.
//!
//! The spec functions speak of `Seq<char>`, the view of a string. The
//! executable functions work on a window `[lo, hi)` of a vector of characters
//! and return positions in that vector, so that a caller reads a string's
//! characters once and cuts its pieces out of the string at the end.

use vstd::prelude::*;

verus! {

/// Whether `c` has the Unicode property `White_Space`.
pub open spec fn is_whitespace(c: char) -> bool {
    let n = c as int;
    ||| 0x09 <= n <= 0x0D
    ||| n == 0x20
    ||| n == 0x85
    ||| n == 0xA0
    ||| n == 0x1680
    ||| 0x2000 <= n <= 0x200A
    ||| n == 0x2028
    ||| n == 0x2029
    ||| n == 0x202F
    ||| n == 0x205F
    ||| n == 0x3000
}

/// `s` without its leading white space.
pub open spec fn trim_start(s: Seq<char>) -> Seq<char>
    decreases s.len(),
{
    if s.len() > 0 && is_whitespace(s[0]) {
        trim_start(s.drop_first())
    } else {
        s
    }
}

/// `s` without its trailing white space.
pub open spec fn trim_end(s: Seq<char>) -> Seq<char>
    decreases s.len(),
{
    if s.len() > 0 && is_whitespace(s.last()) {
        trim_end(s.drop_last())
    } else {
        s
    }
}

/// `s` without its leading and trailing white space.
pub open spec fn trim(s: Seq<char>) -> Seq<char> {
    trim_end(trim_start(s))
}

/// Tells whether a character is white space.
pub fn whitespace(c: char) -> (b: bool)
    ensures
        b == is_whitespace(c),
{
    let n: u32 = c as u32;
    (0x09 <= n && n <= 0x0D) || n == 0x20 || n == 0x85 || n == 0xA0 || n == 0x1680 || (0x2000 <= n
        && n <= 0x200A) || n == 0x2028 || n == 0x2029 || n == 0x202F || n == 0x205F || n == 0x3000
}

/// The characters of `s`, in order.
pub fn chars_of(s: &str) -> (cs: Vec<char>)
    ensures
        cs@ == s@,
{
    let mut cs: Vec<char> = Vec::new();
    for c in it: s.chars()
        invariant
            cs@ == it.seq().take(it.index() as int),
            it.seq() == s@,
    {
        cs.push(c);
    }
    cs
}

/// The position in `[lo, hi]` at which the window's leading white space ends.
pub(crate) fn skip_whitespace(cs: &Vec<char>, lo: usize, hi: usize) -> (at: usize)
    requires
        lo <= hi <= cs.len(),
    ensures
        lo <= at <= hi,
        cs@.subrange(at as int, hi as int) == trim_start(cs@.subrange(lo as int, hi as int)),
{
    let mut at: usize = lo;
    while at < hi && whitespace(cs[at])
        invariant
            lo <= at <= hi <= cs.len(),
            trim_start(cs@.subrange(at as int, hi as int)) == trim_start(
                cs@.subrange(lo as int, hi as int),
            ),
        decreases hi - at,
    {
        assert(cs@.subrange(at as int, hi as int).drop_first() == cs@.subrange(
            at as int + 1,
            hi as int,
        ));
        at += 1;
    }
    at
}

/// The position in `[lo, hi]` at which the window's trailing white space begins.
pub(crate) fn skip_whitespace_back(cs: &Vec<char>, lo: usize, hi: usize) -> (at: usize)
    requires
        lo <= hi <= cs.len(),
    ensures
        lo <= at <= hi,
        cs@.subrange(lo as int, at as int) == trim_end(cs@.subrange(lo as int, hi as int)),
{
    let mut at: usize = hi;
    while lo < at && whitespace(cs[at - 1])
        invariant
            lo <= at <= hi <= cs.len(),
            trim_end(cs@.subrange(lo as int, at as int)) == trim_end(
                cs@.subrange(lo as int, hi as int),
            ),
        decreases at - lo,
    {
        assert(cs@.subrange(lo as int, at as int).drop_last() == cs@.subrange(
            lo as int,
            at as int - 1,
        ));
        at -= 1;
    }
    at
}

/// Whether `pat` stands in `s` at position `i`.
pub open spec fn occurs_at(s: Seq<char>, pat: Seq<char>, i: int) -> bool {
    0 <= i && i + pat.len() <= s.len() && s.subrange(i, i + pat.len()) == pat
}

/// The position of the first occurrence of `pat` in `s`.
pub open spec fn find(s: Seq<char>, pat: Seq<char>) -> Option<int>
    decreases s.len(),
{
    if s.len() < pat.len() {
        None
    } else if occurs_at(s, pat, 0) {
        Some(0)
    } else if s.len() == 0 {
        None
    } else {
        match find(s.drop_first(), pat) {
            Some(i) => Some(i + 1),
            None => None,
        }
    }
}

/// The pieces of `s` between the occurrences of `sep`, taken from left to
/// right without overlap. A sequence without `sep` is its own single piece.
pub open spec fn split(s: Seq<char>, sep: Seq<char>) -> Seq<Seq<char>>
    decreases s.len(),
{
    match find(s, sep) {
        Some(i) => if sep.len() > 0 && 0 <= i && i + sep.len() <= s.len() {
            seq![s.take(i)] + split(s.skip(i + sep.len()), sep)
        } else {
            seq![s]
        },
        None => seq![s],
    }
}

/// The pieces of `s` between the occurrences of `sep`, each one trimmed.
pub open spec fn split_trimmed(s: Seq<char>, sep: Seq<char>) -> Seq<Seq<char>> {
    split(s, sep).map_values(|piece: Seq<char>| trim(piece))
}

/// The parts in order, with `sep` between each two neighbours.
pub open spec fn join(parts: Seq<Seq<char>>, sep: Seq<char>) -> Seq<char>
    decreases parts.len(),
{
    if parts.len() == 0 {
        Seq::empty()
    } else if parts.len() == 1 {
        parts[0]
    } else {
        join(parts.drop_last(), sep) + sep + parts.last()
    }
}

/// The views of the strings in `v`.
pub open spec fn texts(v: Seq<String>) -> Seq<Seq<char>> {
    v.map_values(|s: String| s@)
}

/// `find` returns an occurrence, and the leftmost one; it returns `None`
/// only where there is no occurrence at all.
pub proof fn lemma_find_is_first(s: Seq<char>, pat: Seq<char>)
    ensures
        match find(s, pat) {
            Some(i) => occurs_at(s, pat, i) && forall|j: int| 0 <= j < i ==> !occurs_at(s, pat, j),
            None => forall|j: int| !occurs_at(s, pat, j),
        },
    decreases s.len(),
{
    if s.len() < pat.len() {
    } else if occurs_at(s, pat, 0) {
    } else if s.len() == 0 {
    } else {
        let t = s.drop_first();
        lemma_find_is_first(t, pat);
        assert forall|j: int| occurs_at(s, pat, j) && j > 0 implies occurs_at(t, pat, j - 1) by {
            assert(t.subrange(j - 1, j - 1 + pat.len()) == s.subrange(j, j + pat.len()));
        }
        match find(t, pat) {
            Some(i) => {
                assert(s.subrange(i + 1, i + 1 + pat.len()) == t.subrange(i, i + pat.len()));
            },
            None => {},
        }
    }
}

/// An occurrence before which there is no other is the one that `find` returns.
pub proof fn lemma_first_occurrence_is_found(s: Seq<char>, pat: Seq<char>, i: int)
    requires
        occurs_at(s, pat, i),
        forall|j: int| 0 <= j < i ==> !occurs_at(s, pat, j),
    ensures
        find(s, pat) == Some(i),
{
    lemma_find_is_first(s, pat);
}

/// What is left of `s` after trimming its start is a suffix of `s` that does
/// not begin with white space, and all that was removed is white space.
pub proof fn lemma_trim_start_is_suffix(s: Seq<char>)
    ensures
        trim_start(s).len() <= s.len(),
        trim_start(s) == s.skip(s.len() - trim_start(s).len()),
        trim_start(s).len() > 0 ==> !is_whitespace(trim_start(s)[0]),
        forall|i: int| 0 <= i < s.len() - trim_start(s).len() ==> is_whitespace(s[i]),
    decreases s.len(),
{
    if s.len() > 0 && is_whitespace(s[0]) {
        let t = s.drop_first();
        lemma_trim_start_is_suffix(t);
        assert(t.skip(t.len() - trim_start(t).len()) == s.skip(s.len() - trim_start(s).len()));
        assert forall|i: int| 0 <= i < s.len() - trim_start(s).len() implies is_whitespace(
            s[i],
        ) by {
            if i > 0 {
                assert(s[i] == t[i - 1]);
            }
        }
    } else {
        assert(s.skip(0) == s);
    }
}

/// What is left of `s` after trimming its end is a prefix of `s` that does
/// not end with white space, and all that was removed is white space.
pub proof fn lemma_trim_end_is_prefix(s: Seq<char>)
    ensures
        trim_end(s).len() <= s.len(),
        trim_end(s) == s.take(trim_end(s).len() as int),
        trim_end(s).len() > 0 ==> !is_whitespace(trim_end(s).last()),
        forall|i: int| trim_end(s).len() <= i < s.len() ==> is_whitespace(s[i]),
    decreases s.len(),
{
    if s.len() > 0 && is_whitespace(s.last()) {
        let t = s.drop_last();
        lemma_trim_end_is_prefix(t);
        assert(t.take(trim_end(t).len() as int) == s.take(trim_end(s).len() as int));
        assert forall|i: int| trim_end(s).len() <= i < s.len() implies is_whitespace(s[i]) by {
            if i < t.len() {
                assert(s[i] == t[i]);
            }
        }
    } else {
        assert(s.take(s.len() as int) == s);
    }
}

/// A sequence of white space only is trimmed to nothing.
pub proof fn lemma_trim_of_blank(s: Seq<char>)
    requires
        forall|i: int| 0 <= i < s.len() ==> is_whitespace(s[i]),
    ensures
        trim_start(s).len() == 0,
        trim(s).len() == 0,
    decreases s.len(),
{
    if s.len() > 0 {
        lemma_trim_of_blank(s.drop_first());
    }
}

/// A sequence that neither begins nor ends with white space is trimmed to itself.
pub proof fn lemma_trim_of_tight(s: Seq<char>)
    requires
        s.len() > 0 ==> !is_whitespace(s[0]) && !is_whitespace(s.last()),
    ensures
        trim_start(s) == s,
        trim_end(s) == s,
        trim(s) == s,
{
}

/// The position in `[lo, hi)` of the first occurrence of the two characters
/// `first`, `second` in the window.
pub(crate) fn find_pair(cs: &Vec<char>, lo: usize, hi: usize, first: char, second: char) -> (found: Option<
    usize,
>)
    requires
        lo <= hi <= cs.len(),
    ensures
        match found {
            Some(at) => lo <= at && at + 2 <= hi && find(
                cs@.subrange(lo as int, hi as int),
                seq![first, second],
            ) == Some(at - lo),
            None => find(cs@.subrange(lo as int, hi as int), seq![first, second]) is None,
        },
{
    let ghost pat = seq![first, second];
    let ghost whole = cs@.subrange(lo as int, hi as int);
    let mut at: usize = lo;
    while hi - at >= 2
        invariant
            lo <= at <= hi <= cs.len(),
            pat == seq![first, second],
            whole == cs@.subrange(lo as int, hi as int),
            find(whole, pat) == match find(cs@.subrange(at as int, hi as int), pat) {
                Some(i) => Some(i + (at - lo)),
                None => None,
            },
        decreases hi - at,
    {
        let ghost rest = cs@.subrange(at as int, hi as int);
        if cs[at] == first && cs[at + 1] == second {
            assert(rest.subrange(0, 2) == pat);
            return Some(at);
        }
        assert(!occurs_at(rest, pat, 0)) by {
            if occurs_at(rest, pat, 0) {
                assert(rest.subrange(0, 2)[0] == pat[0]);
                assert(rest.subrange(0, 2)[1] == pat[1]);
            }
        }
        assert(rest.drop_first() == cs@.subrange(at as int + 1, hi as int));
        at += 1;
    }
    None
}

/// The characters of `s` from position `lo` up to position `hi`, as a string.
pub(crate) fn cut(s: &str, lo: usize, hi: usize) -> (piece: String)
    requires
        lo <= hi <= s@.len(),
    ensures
        piece@ == s@.subrange(lo as int, hi as int),
{
    s.substring_char(lo, hi).to_owned()
}

/// The lower-case form of a text, as `str::to_lowercase` gives it.
pub uninterp spec fn lowercase(text: Seq<char>) -> Seq<char>;

/// A text between double quotes, with the characters escaped that cannot
/// stand for themselves, as the `Debug` formatting of `str` writes it.
pub uninterp spec fn quoted(text: Seq<char>) -> Seq<char>;

/// Puts `text` in lower case by `str::to_lowercase`.
///
/// Not proved: that the result depends on the characters of `text` alone,
/// which is what equating it with `lowercase` claims.
#[verifier::external_body]
pub(crate) fn fold_case(text: &str) -> (folded: String)
    ensures
        folded@ == lowercase(text@),
{
    text.to_lowercase()
}

/// Quotes `text` by the `Debug` formatting of `str`.
///
/// Not proved: that the result depends on the characters of `text` alone,
/// which is what equating it with `quoted` claims.
#[verifier::external_body]
pub(crate) fn quote(text: &str) -> (quotation: String)
    ensures
        quotation@ == quoted(text@),
{
    format!("{:?}", text)
}

/// The strings of `parts` in order, with `sep` between each two neighbours.
pub fn join_with(parts: &Vec<String>, sep: &str) -> (joined: String)
    ensures
        joined@ == join(texts(parts@), sep@),
{
    let mut joined = String::new();
    let mut at: usize = 0;
    while at < parts.len()
        invariant
            at <= parts.len(),
            joined@ == join(texts(parts@).take(at as int), sep@),
        decreases parts.len() - at,
    {
        let ghost before = texts(parts@).take(at as int);
        let ghost after = texts(parts@).take(at as int + 1);
        assert(after.drop_last() == before);
        assert(after.last() == parts@[at as int]@);
        if at > 0 {
            joined.append(sep);
        }
        joined.append(parts[at].as_str());
        assert(joined@ == join(after, sep@)) by {
            if at == 0 {
                assert(before.len() == 0);
                assert(Seq::<char>::empty() + parts@[0]@ == parts@[0]@);
            }
        }
        at += 1;
    }
    assert(texts(parts@).take(at as int) == texts(parts@));
    joined
}

/// The trimmed pieces of `s` are the trimmed first piece, and then, where a
/// separator follows it, the trimmed pieces of what stands behind that
/// separator.
pub proof fn lemma_split_trimmed_unfolds(s: Seq<char>, sep: Seq<char>)
    requires
        sep.len() > 0,
    ensures
        split_trimmed(s, sep) == match find(s, sep) {
            Some(i) => seq![trim(s.take(i))] + split_trimmed(s.skip(i + sep.len()), sep),
            None => seq![trim(s)],
        },
{
    lemma_find_is_first(s, sep);
    match find(s, sep) {
        Some(i) => {
            let rest = split(s.skip(i + sep.len()), sep);
            assert(split(s, sep) == seq![s.take(i)] + rest);
            assert(split_trimmed(s, sep) == seq![trim(s.take(i))] + split_trimmed(
                s.skip(i + sep.len()),
                sep,
            ));
        },
        None => {
            assert(split_trimmed(s, sep) == seq![trim(s)]);
        },
    }
}

/// Whether `a` stands at or before the place of `b` in the order of a
/// dictionary whose alphabet is the characters by their code points.
pub open spec fn precedes(a: Seq<char>, b: Seq<char>) -> bool
    decreases a.len(),
{
    if a.len() == 0 {
        true
    } else if b.len() == 0 {
        false
    } else if a[0] != b[0] {
        a[0] < b[0]
    } else {
        precedes(a.drop_first(), b.drop_first())
    }
}

/// Tells whether `a` stands at or before the place of `b` in the order of
/// the dictionary.
pub fn comes_before(a: &str, b: &str) -> (before: bool)
    ensures
        before == precedes(a@, b@),
{
    let left = chars_of(a);
    let right = chars_of(b);
    let mut at: usize = 0;
    assert(left@.skip(0) == left@ && right@.skip(0) == right@);
    while at < left.len() && at < right.len() && left[at] == right[at]
        invariant
            at <= left.len(),
            at <= right.len(),
            precedes(left@, right@) == precedes(left@.skip(at as int), right@.skip(at as int)),
        decreases left.len() - at,
    {
        assert(left@.skip(at as int).drop_first() == left@.skip(at as int + 1));
        assert(right@.skip(at as int).drop_first() == right@.skip(at as int + 1));
        at += 1;
    }
    if at == left.len() {
        true
    } else if at == right.len() {
        false
    } else {
        left[at] < right[at]
    }
}

/// Of two sequences, one stands at or before the place of the other.
pub proof fn lemma_precedes_is_total(a: Seq<char>, b: Seq<char>)
    ensures
        precedes(a, b) || precedes(b, a),
    decreases a.len(),
{
    if a.len() > 0 && b.len() > 0 {
        if a[0] == b[0] {
            lemma_precedes_is_total(a.drop_first(), b.drop_first());
        }
    }
}

/// What stands at or before `b`, which stands at or before `c`, stands at
/// or before `c`.
pub proof fn lemma_precedes_is_transitive(a: Seq<char>, b: Seq<char>, c: Seq<char>)
    requires
        precedes(a, b),
        precedes(b, c),
    ensures
        precedes(a, c),
    decreases a.len(),
{
    if a.len() > 0 && b.len() > 0 && c.len() > 0 && a[0] == b[0] && b[0] == c[0] {
        lemma_precedes_is_transitive(a.drop_first(), b.drop_first(), c.drop_first());
    }
}

} // verus!
