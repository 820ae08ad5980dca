//! Descriptors: the tags that a descriptor's lines declare, and the version
//! among them.

use crate::error::{Error, ErrorView};
use crate::tag::{tag_of_line, Tag};
use crate::text::{
    chars_of, cut, find_pair, lemma_split_trimmed_unfolds, skip_whitespace, skip_whitespace_back,
    split_trimmed, texts,
};
use crate::version::{lenient_version, parse_version, Version, VersionView};
use vstd::hash_map::StringHashMap;
use vstd::prelude::*;

verus! {

/// What an addon's descriptor says: its tags, and the version that the tag
/// `Version` declares.
pub struct TOC {
    version: Option<Version>,
    tags: StringHashMap<String>,
}

/// What a [`TOC`] stands for.
pub ghost struct TocView {
    /// The value of each tag, by the tag's name.
    pub tags: Map<Seq<char>, Seq<char>>,
    /// The version, where one is declared and can be read.
    pub version: Option<VersionView>,
}

/// The tags that the lines declare. Where several lines declare one name,
/// the last of them gives its value.
pub open spec fn tags_of_lines(lines: Seq<Seq<char>>) -> Map<Seq<char>, Seq<char>>
    decreases lines.len(),
{
    if lines.len() == 0 {
        Map::empty()
    } else {
        let earlier = tags_of_lines(lines.drop_last());
        match tag_of_line(lines.last()) {
            Some((name, value)) => earlier.insert(name, value),
            None => earlier,
        }
    }
}

/// The version that the tags declare: the lenient reading of the tag
/// `Version`, where there is such a tag and it can be read.
pub open spec fn declared_version(tags: Map<Seq<char>, Seq<char>>) -> Option<VersionView> {
    if tags.contains_key("Version"@) {
        lenient_version(tags["Version"@])
    } else {
        None
    }
}

/// The names that the tag `Dependencies` lists: the pieces between its
/// separators `", "`, each trimmed. Without the tag there are none.
pub open spec fn dependencies_of(tags: Map<Seq<char>, Seq<char>>) -> Seq<Seq<char>> {
    if tags.contains_key("Dependencies"@) {
        split_trimmed(tags["Dependencies"@], seq![',', ' '])
    } else {
        Seq::empty()
    }
}

/// The view of an optional version.
pub open spec fn version_view(version: Option<Version>) -> Option<VersionView> {
    match version {
        Some(v) => Some(v@),
        None => None,
    }
}

/// The tags of a map as texts.
pub open spec fn tag_texts(tags: Map<Seq<char>, String>) -> Map<Seq<char>, Seq<char>> {
    tags.map_values(|value: String| value@)
}

/// Collects the tags that the lines declare.
fn read_tags(lines: &Vec<String>) -> (tags: StringHashMap<String>)
    ensures
        tag_texts(tags@) == tags_of_lines(texts(lines@)),
{
    let mut tags: StringHashMap<String> = StringHashMap::new();
    let mut at: usize = 0;
    assert(tag_texts(tags@) == tags_of_lines(texts(lines@).take(0)));
    while at < lines.len()
        invariant
            at <= lines.len(),
            tag_texts(tags@) == tags_of_lines(texts(lines@).take(at as int)),
        decreases lines.len() - at,
    {
        let ghost read = texts(lines@).take(at as int + 1);
        assert(read.drop_last() == texts(lines@).take(at as int));
        assert(read.last() == lines@[at as int]@);
        let ghost before = tags@;
        match Tag::from_line(lines[at].as_str()) {
            Some(Tag(name, value)) => {
                tags.insert(name, value);
                assert(tag_texts(tags@) == tag_texts(before).insert(name@, value@));
            },
            None => {},
        }
        at += 1;
    }
    assert(texts(lines@).take(at as int) == texts(lines@));
    tags
}

impl View for TOC {
    type V = TocView;

    closed spec fn view(&self) -> TocView {
        TocView { tags: tag_texts(self.tags@), version: version_view(self.version) }
    }
}

impl TOC {
    /// The version is the one that the tags declare.
    #[verifier::type_invariant]
    closed spec fn version_is_declared(&self) -> bool {
        version_view(self.version) == declared_version(tag_texts(self.tags@))
    }

    /// Reads a descriptor from its lines, in their order in the file.
    ///
    /// Every line is looked at, whatever stands between the tag lines. A
    /// descriptor without a tag `Version` has no version. One whose tag
    /// `Version` cannot be read is refused with `VersionUnparseable`, which
    /// holds the tag's value.
    pub fn parse(lines: &Vec<String>) -> (parsed: Result<TOC, Error>)
        ensures
            match parsed {
                Ok(toc) => {
                    &&& toc@.tags == tags_of_lines(texts(lines@))
                    &&& toc@.version == declared_version(toc@.tags)
                    &&& toc@.tags.contains_key("Version"@) ==> toc@.version is Some
                },
                Err(e) => {
                    let tags = tags_of_lines(texts(lines@));
                    &&& tags.contains_key("Version"@)
                    &&& lenient_version(tags["Version"@]) is None
                    &&& e@ == ErrorView::VersionUnparseable(tags["Version"@])
                },
            },
            !tags_of_lines(texts(lines@)).contains_key("Version"@) ==> parsed is Ok,
    {
        let tags = read_tags(lines);
        let version = match tags.get("Version") {
            None => None,
            Some(raw) => match parse_version(raw.as_str()) {
                Ok(v) => Some(v),
                Err(e) => {
                    return Err(e);
                },
            },
        };
        Ok(TOC { version, tags })
    }

    /// Reads a descriptor from its lines as `parse` does, but accepts a tag
    /// `Version` that cannot be read: the descriptor then has no version.
    pub fn scan(lines: &Vec<String>) -> (toc: TOC)
        ensures
            toc@.tags == tags_of_lines(texts(lines@)),
            toc@.version == declared_version(toc@.tags),
    {
        let tags = read_tags(lines);
        let version = match tags.get("Version") {
            None => None,
            Some(raw) => match parse_version(raw.as_str()) {
                Ok(v) => Some(v),
                Err(_) => None,
            },
        };
        TOC { version, tags }
    }

    /// The value of the tag `name`, if the descriptor has that tag.
    pub fn tag(&self, name: &str) -> (value: Option<&String>)
        ensures
            match value {
                Some(v) => self@.tags.contains_key(name@) && v@ == self@.tags[name@],
                None => !self@.tags.contains_key(name@),
            },
    {
        self.tags.get(name)
    }

    /// The value of the tag `Notes`.
    pub fn notes(&self) -> (value: Option<&String>)
        ensures
            match value {
                Some(v) => self@.tags.contains_key("Notes"@) && v@ == self@.tags["Notes"@],
                None => !self@.tags.contains_key("Notes"@),
            },
    {
        self.tag("Notes")
    }

    /// The value of the tag `Author`.
    pub fn author(&self) -> (value: Option<&String>)
        ensures
            match value {
                Some(v) => self@.tags.contains_key("Author"@) && v@ == self@.tags["Author"@],
                None => !self@.tags.contains_key("Author"@),
            },
    {
        self.tag("Author")
    }

    /// The version, which is the one that the tags declare.
    pub fn version(&self) -> (version: Option<&Version>)
        ensures
            match version {
                Some(v) => self@.version == Some(v@),
                None => self@.version is None,
            },
            self@.version == declared_version(self@.tags),
    {
        proof {
            use_type_invariant(self);
        }
        self.version.as_ref()
    }

    /// What is wrong with the version, if anything: `VersionUnparseable`,
    /// which holds the value of the tag `Version`, where the descriptor has
    /// that tag and it cannot be read.
    pub fn version_error(&self) -> (error: Option<Error>)
        ensures
            match error {
                Some(e) => {
                    &&& self@.tags.contains_key("Version"@)
                    &&& lenient_version(self@.tags["Version"@]) is None
                    &&& e@ == ErrorView::VersionUnparseable(self@.tags["Version"@])
                },
                None => self@.tags.contains_key("Version"@) ==> lenient_version(
                    self@.tags["Version"@],
                ) is Some,
            },
    {
        proof {
            use_type_invariant(self);
        }
        match (self.tags.get("Version"), &self.version) {
            (Some(raw), None) => Some(Error::VersionUnparseable(raw.clone())),
            _ => None,
        }
    }

    /// The names of the addons that this one depends on.
    ///
    /// The tag `Dependencies` is cut at each `", "` and nowhere else, so a
    /// name that holds these two characters comes out in two pieces.
    pub fn dependencies(&self) -> (names: Vec<String>)
        ensures
            texts(names@) == dependencies_of(self@.tags),
    {
        let listed = match self.tags.get("Dependencies") {
            None => {
                return Vec::new();
            },
            Some(listed) => listed,
        };
        let cs = chars_of(listed.as_str());
        let ghost sep = seq![',', ' '];
        let mut names: Vec<String> = Vec::new();
        let mut start: usize = 0;
        assert(cs@.subrange(0, cs.len() as int) == cs@);
        loop
            invariant
                start <= cs.len(),
                cs@ == listed@,
                listed@ == self@.tags["Dependencies"@],
                self@.tags.contains_key("Dependencies"@),
                sep == seq![',', ' '],
                split_trimmed(cs@, sep) == texts(names@) + split_trimmed(
                    cs@.subrange(start as int, cs.len() as int),
                    sep,
                ),
            decreases cs.len() - start,
        {
            let ghost rest = cs@.subrange(start as int, cs.len() as int);
            let ghost before = names@;
            proof {
                lemma_split_trimmed_unfolds(rest, sep);
            }
            match find_pair(&cs, start, cs.len(), ',', ' ') {
                Some(at) => {
                    assert(rest.take(at - start) == cs@.subrange(start as int, at as int));
                    assert(rest.skip(at - start + 2) == cs@.subrange(
                        at as int + 2,
                        cs.len() as int,
                    ));
                    let from = skip_whitespace(&cs, start, at);
                    let to = skip_whitespace_back(&cs, from, at);
                    let name = cut(listed.as_str(), from, to);
                    names.push(name);
                    assert(texts(names@) == texts(before).push(name@));
                    start = at + 2;
                },
                None => {
                    let from = skip_whitespace(&cs, start, cs.len());
                    let to = skip_whitespace_back(&cs, from, cs.len());
                    let name = cut(listed.as_str(), from, to);
                    names.push(name);
                    assert(texts(names@) == texts(before).push(name@));
                    return names;
                },
            }
        }
    }
}

/// Whether line number `at` declares a tag of the name `name`.
pub open spec fn declares(lines: Seq<Seq<char>>, at: int, name: Seq<char>) -> bool {
    &&& 0 <= at < lines.len()
    &&& tag_of_line(lines[at]) matches Some((declared, _))
    &&& declared == name
}

/// Where several lines declare one name, the last of them gives the tag its
/// value: a later declaration overwrites an earlier one.
pub proof fn lemma_last_declaration_wins(lines: Seq<Seq<char>>, at: int, name: Seq<char>)
    requires
        declares(lines, at, name),
        forall|later: int| at < later < lines.len() ==> !declares(lines, later, name),
    ensures
        tags_of_lines(lines).contains_key(name),
        tag_of_line(lines[at]) matches Some((_, value)) ==> tags_of_lines(lines)[name] == value,
    decreases lines.len(),
{
    let last = lines.len() - 1;
    if at < last {
        let earlier = lines.drop_last();
        assert(!declares(lines, last, name));
        assert(declares(earlier, at, name));
        assert forall|later: int| at < later < earlier.len() implies !declares(
            earlier,
            later,
            name,
        ) by {
            assert(!declares(lines, later, name));
        }
        lemma_last_declaration_wins(earlier, at, name);
    }
}

/// The descriptor has a tag of a name exactly where some line declares it.
pub proof fn lemma_tags_are_the_declared_names(lines: Seq<Seq<char>>, name: Seq<char>)
    ensures
        tags_of_lines(lines).contains_key(name) <==> exists|at: int| declares(lines, at, name),
    decreases lines.len(),
{
    if lines.len() > 0 {
        let last = lines.len() - 1;
        let earlier = lines.drop_last();
        lemma_tags_are_the_declared_names(earlier, name);
        if tags_of_lines(lines).contains_key(name) {
            if declares(lines, last, name) {
            } else {
                let at = choose|at: int| declares(earlier, at, name);
                assert(declares(lines, at, name));
            }
        }
        if exists|at: int| declares(lines, at, name) {
            let at = choose|at: int| declares(lines, at, name);
            if at < last {
                assert(declares(earlier, at, name));
            }
        }
    }
}

/// A descriptor in which no line declares the tag `Version` has no version.
pub proof fn lemma_no_version_tag_no_version(lines: Seq<Seq<char>>)
    requires
        forall|at: int| !declares(lines, at, "Version"@),
    ensures
        declared_version(tags_of_lines(lines)) is None,
{
    lemma_tags_are_the_declared_names(lines, "Version"@);
}

} // verus!
