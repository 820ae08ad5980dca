//! Tag lines of a descriptor.
//!
//! A descriptor is read line by line. A line that, once trimmed, begins with
//! the marker `##` and holds the separator `": "` declares a tag: a name and a
//! value. Every other line is commentary and declares nothing.

use crate::text::{
    chars_of, cut, find, find_pair, is_whitespace, lemma_find_is_first,
    lemma_first_occurrence_is_found, lemma_trim_end_is_prefix, lemma_trim_of_blank,
    lemma_trim_of_tight, lemma_trim_start_is_suffix, occurs_at, skip_whitespace,
    skip_whitespace_back, trim, trim_start,
};
use vstd::prelude::*;

verus! {

/// The name of a tag.
pub type TagName = String;

/// The value of a tag.
pub type TagValue = String;

/// The byte-order mark, which some editors put in front of a line.
pub const BYTE_ORDER_MARK: char = '\u{feff}';

/// A name and the value that a line gives it.
#[derive(Debug, PartialEq, Eq)]
pub struct Tag(pub TagName, pub TagValue);

impl View for Tag {
    type V = (Seq<char>, Seq<char>);

    open spec fn view(&self) -> (Seq<char>, Seq<char>) {
        (self.0@, self.1@)
    }
}

/// The marker that a tag line begins with.
pub open spec fn marker() -> Seq<char> {
    seq!['#', '#']
}

/// What stands between a tag's name and its value.
pub open spec fn separator() -> Seq<char> {
    seq![':', ' ']
}

/// Whether `s` begins with the marker.
pub open spec fn is_marked(s: Seq<char>) -> bool {
    s.len() >= 2 && s[0] == '#' && s[1] == '#'
}

/// `s` without one leading byte-order mark.
pub open spec fn strip_byte_order_mark(s: Seq<char>) -> Seq<char> {
    if s.len() > 0 && s[0] == BYTE_ORDER_MARK {
        s.drop_first()
    } else {
        s
    }
}

/// `s` without the marker that it begins with.
pub open spec fn strip_marker(s: Seq<char>) -> Seq<char> {
    if is_marked(s) {
        s.skip(2)
    } else {
        s
    }
}

/// What is left of a line once its surrounding white space and then one
/// leading byte-order mark are removed.
pub open spec fn content(line: Seq<char>) -> Seq<char> {
    strip_byte_order_mark(trim(line))
}

/// Whether a line is a tag line: whether its content begins with the marker.
pub open spec fn is_tag_line(line: Seq<char>) -> bool {
    is_marked(content(line))
}

/// What a tag line says: its content without the marker and the white
/// space behind it.
pub open spec fn body(line: Seq<char>) -> Seq<char> {
    trim_start(strip_marker(content(line)))
}

/// The tag that a line declares, if it declares one.
///
/// A tag line's body is cut at the first separator: the name is what
/// stands before it, the value what stands behind it.
pub open spec fn tag_of_line(line: Seq<char>) -> Option<(Seq<char>, Seq<char>)> {
    if is_tag_line(line) {
        let body = body(line);
        match find(body, separator()) {
            Some(at) => Some((body.take(at), body.skip(at + 2))),
            None => None,
        }
    } else {
        None
    }
}

/// The view of an optional tag.
pub open spec fn tag_view(tag: Option<Tag>) -> Option<(Seq<char>, Seq<char>)> {
    match tag {
        Some(t) => Some(t@),
        None => None,
    }
}

impl Tag {
    /// Reads the tag that `line` declares. A line that is no tag line, or
    /// that lacks the separator, declares none.
    pub fn from_line(line: &str) -> (tag: Option<Tag>)
        ensures
            tag_view(tag) == tag_of_line(line@),
    {
        let cs = chars_of(line);
        let start = skip_whitespace(&cs, 0, cs.len());
        let end = skip_whitespace_back(&cs, start, cs.len());
        assert(cs@.subrange(0, cs.len() as int) == cs@);
        assert(cs@.subrange(start as int, end as int) == trim(line@));
        let start = if start < end && cs[start] == BYTE_ORDER_MARK {
            assert(cs@.subrange(start as int, end as int).drop_first() == cs@.subrange(
                start as int + 1,
                end as int,
            ));
            start + 1
        } else {
            start
        };
        assert(cs@.subrange(start as int, end as int) == content(line@));
        if !(end - start >= 2 && cs[start] == '#' && cs[start + 1] == '#') {
            return None;
        }
        assert(cs@.subrange(start as int, end as int).skip(2) == cs@.subrange(
            start as int + 2,
            end as int,
        ));
        let start = skip_whitespace(&cs, start + 2, end);
        let ghost body = cs@.subrange(start as int, end as int);
        match find_pair(&cs, start, end, ':', ' ') {
            Some(at) => {
                assert(body.take(at - start) == cs@.subrange(start as int, at as int));
                assert(body.skip(at - start + 2) == cs@.subrange(at as int + 2, end as int));
                Some(Tag(cut(line, start, at), cut(line, at + 2, end)))
            },
            None => None,
        }
    }
}

/// A line whose content does not begin with the marker declares no tag.
pub proof fn lemma_unmarked_line_declares_nothing(line: Seq<char>)
    requires
        !is_tag_line(line),
    ensures
        tag_of_line(line) is None,
{
}

/// A line of white space only, an empty line among them, declares no tag.
pub proof fn lemma_blank_line_declares_nothing(line: Seq<char>)
    requires
        forall|i: int| 0 <= i < line.len() ==> is_whitespace(line[i]),
    ensures
        !is_tag_line(line),
        tag_of_line(line) is None,
{
    lemma_trim_of_blank(line);
}

/// A line whose first character after the leading white space is neither a
/// byte-order mark nor the start of a marker declares no tag, whatever it
/// holds further on.
pub proof fn lemma_marker_must_come_first(line: Seq<char>, first: int)
    requires
        0 <= first < line.len(),
        forall|i: int| 0 <= i < first ==> is_whitespace(line[i]),
        !is_whitespace(line[first]),
        line[first] != BYTE_ORDER_MARK,
        !(line[first] == '#' && first + 1 < line.len() && line[first + 1] == '#'),
    ensures
        !is_tag_line(line),
        tag_of_line(line) is None,
{
    let t = trim_start(line);
    lemma_trim_start_is_suffix(line);
    let cut_at = line.len() - t.len();
    assert(cut_at == first) by {
        if cut_at < first {
            assert(t[0] == line[cut_at]);
        }
    }
    lemma_trim_end_is_prefix(t);
    let c = trim(line);
    if c.len() > 0 {
        assert(c[0] == t[0]);
        assert(t[0] == line[first]);
        if c.len() > 1 {
            assert(c[1] == t[1]);
            assert(t[1] == line[first + 1]);
        }
    }
}

/// A line declares a tag exactly where it is a tag line whose body holds
/// the separator. The body is then the name, the separator and the value,
/// one after the other, and the name holds no separator.
pub proof fn lemma_tag_is_the_body_cut_in_two(line: Seq<char>)
    ensures
        tag_of_line(line) is Some <==> is_tag_line(line) && exists|at: int|
            occurs_at(body(line), separator(), at),
        tag_of_line(line) matches Some((name, value)) ==> body(line) == name + separator() + value
            && find(name, separator()) is None,
{
    let sep = separator();
    let b = body(line);
    lemma_find_is_first(b, sep);
    if is_tag_line(line) {
        match find(b, sep) {
            Some(at) => {
                let name = b.take(at);
                let value = b.skip(at + 2);
                assert(b.subrange(at, at + 2) == sep);
                assert(b == name + sep + value);
                lemma_find_is_first(name, sep);
                match find(name, sep) {
                    Some(j) => {
                        assert(name.subrange(j, j + 2) == b.subrange(j, j + 2));
                        assert(occurs_at(b, sep, j));
                    },
                    None => {},
                }
            },
            None => {},
        }
    }
}

/// A line made of the marker, white space, a name, the separator and a
/// value declares that name and that value, provided that the name neither
/// begins with white space nor holds the separator, and that the value is
/// not empty and does not end with white space.
pub proof fn lemma_tag_line_declares_its_tag(pad: Seq<char>, name: Seq<char>, value: Seq<char>)
    requires
        forall|i: int| 0 <= i < pad.len() ==> is_whitespace(pad[i]),
        name.len() > 0 ==> !is_whitespace(name[0]),
        find(name, separator()) is None,
        value.len() > 0,
        !is_whitespace(value.last()),
    ensures
        tag_of_line(marker() + pad + name + separator() + value) == Some((name, value)),
{
    let sep = separator();
    let rest = name + sep + value;
    let line = marker() + pad + name + sep + value;
    assert(line == marker() + (pad + rest));
    assert(line[0] == '#' && line[1] == '#');
    assert(line.last() == value.last());
    lemma_trim_of_tight(line);
    assert(content(line) == line);
    assert(line.skip(2) == pad + rest);
    assert(rest[0] == if name.len() > 0 {
        name[0]
    } else {
        ':'
    });
    assert(strip_marker(line) == pad + rest);
    lemma_trim_start_of_padded(pad, rest);
    let at = name.len() as int;
    assert(occurs_at(rest, sep, at)) by {
        assert(rest.subrange(at, at + 2) == sep);
    }
    lemma_find_is_first(name, sep);
    assert forall|j: int| 0 <= j < at implies !occurs_at(rest, sep, j) by {
        if occurs_at(rest, sep, j) {
            assert(rest.subrange(j, j + 2)[0] == sep[0]);
            assert(rest.subrange(j, j + 2)[1] == sep[1]);
            if j + 1 < at {
                assert(name.subrange(j, j + 2) == sep);
                assert(occurs_at(name, sep, j));
            } else {
                assert(rest[j + 1] == ':');
            }
        }
    }
    lemma_first_occurrence_is_found(rest, sep, at);
    assert(rest.take(at) == name);
    assert(rest.skip(at + 2) == value);
}

/// Trimming the start removes white space in front of a sequence that does
/// not begin with white space, and nothing else.
proof fn lemma_trim_start_of_padded(pad: Seq<char>, rest: Seq<char>)
    requires
        forall|i: int| 0 <= i < pad.len() ==> is_whitespace(pad[i]),
        rest.len() > 0,
        !is_whitespace(rest[0]),
    ensures
        trim_start(pad + rest) == rest,
    decreases pad.len(),
{
    if pad.len() == 0 {
        assert(pad + rest == rest);
    } else {
        assert((pad + rest)[0] == pad[0]);
        assert((pad + rest).drop_first() == pad.drop_first() + rest);
        lemma_trim_start_of_padded(pad.drop_first(), rest);
    }
}

} // verus!
