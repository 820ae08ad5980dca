//! Addons: what a directory listing holds, which of its entries are addons,
//! and how an addon is looked up and described.
//!
//! Nothing here touches the file system. The caller lists the root
//! directory and reads the descriptors; an [`Entry`] carries what it found.

use crate::error::{Error, ErrorView};
use crate::text::{
    comes_before, fold_case, join, join_with, lemma_precedes_is_total,
    lemma_precedes_is_transitive, lowercase, precedes, quote, quoted, texts,
};
use crate::toc::{declared_version, dependencies_of, tags_of_lines, TocView, TOC};
use crate::version::{lenient_version, version_text};
use vstd::prelude::*;

verus! {

/// Where the game keeps its addons unless told otherwise.
pub const DEFAULT_DIR: &'static str = "/Applications/World of Warcraft/_retail_/Interface/Addons";

/// The root directory to look for addons in.
pub enum Dir<'a> {
    /// The directory at this path.
    Custom(&'a str),
    /// The directory at `DEFAULT_DIR`.
    Default,
}

impl<'a> Dir<'a> {
    /// The path that the setting stands for.
    pub open spec fn root(self) -> Seq<char> {
        match self {
            Dir::Custom(path) => path@,
            Dir::Default => DEFAULT_DIR@,
        }
    }

    /// The path of the root directory.
    pub fn path(&self) -> (path: &str)
        ensures
            path@ == self.root(),
    {
        match self {
            Dir::Custom(path) => path,
            Dir::Default => DEFAULT_DIR,
        }
    }
}

/// The name of an entry of the root directory: the last component of its path.
#[derive(Debug, PartialEq, Eq)]
pub enum EntryName {
    /// The path has no last component.
    Missing,
    /// The last component is not valid text. Holds it with a replacement
    /// character in place of each invalid part.
    Invalid(String),
    /// The last component.
    Valid(String),
}

/// What an [`EntryName`] stands for.
pub ghost enum EntryNameView {
    Missing,
    Invalid(Seq<char>),
    Valid(Seq<char>),
}

impl View for EntryName {
    type V = EntryNameView;

    open spec fn view(&self) -> EntryNameView {
        match self {
            EntryName::Missing => EntryNameView::Missing,
            EntryName::Invalid(shown) => EntryNameView::Invalid(shown@),
            EntryName::Valid(name) => EntryNameView::Valid(name@),
        }
    }
}

/// An entry of the root directory, as the caller found it.
#[derive(Debug, PartialEq, Eq)]
pub struct Entry {
    /// The entry's path.
    pub path: String,
    /// The entry's name.
    pub name: EntryName,
    /// Whether the entry is a directory.
    pub is_dir: bool,
    /// The lines of the entry's descriptor, in their order in the file, if
    /// the descriptor was read. `None` where it is missing, could not be
    /// read, or was not asked for.
    pub descriptor: Option<Vec<String>>,
}

/// What an [`Entry`] stands for.
pub ghost struct EntryView {
    pub path: Seq<char>,
    pub name: EntryNameView,
    pub is_dir: bool,
    pub descriptor: Option<Seq<Seq<char>>>,
}

impl View for Entry {
    type V = EntryView;

    open spec fn view(&self) -> EntryView {
        EntryView {
            path: self.path@,
            name: self.name@,
            is_dir: self.is_dir,
            descriptor: match self.descriptor {
                Some(lines) => Some(texts(lines@)),
                None => None,
            },
        }
    }
}

/// The views of the entries in `entries`.
pub open spec fn entry_views(entries: Seq<Entry>) -> Seq<EntryView> {
    entries.map_values(|e: Entry| e@)
}

/// An installed addon.
pub struct Addon {
    /// The addon's name, which is the name of its directory.
    pub name: String,
    dir: String,
    toc: TOC,
}

/// What an [`Addon`] stands for.
pub ghost struct AddonView {
    /// The addon's name.
    pub name: Seq<char>,
    /// The path of the addon's directory.
    pub dir: Seq<char>,
    /// What the addon's descriptor says.
    pub toc: TocView,
}

impl View for Addon {
    type V = AddonView;

    closed spec fn view(&self) -> AddonView {
        AddonView { name: self.name@, dir: self.dir@, toc: self.toc@ }
    }
}

/// The views of the addons in `addons`.
pub open spec fn addon_views(addons: Seq<Addon>) -> Seq<AddonView> {
    addons.map_values(|a: Addon| a@)
}

/// The name of the file that describes the addon `name`.
pub open spec fn descriptor_name(name: Seq<char>) -> Seq<char> {
    name + ".toc"@
}

/// What a descriptor of these lines says, where a version that cannot be
/// read counts as none.
pub open spec fn toc_of_lines(lines: Seq<Seq<char>>) -> TocView {
    TocView { tags: tags_of_lines(lines), version: declared_version(tags_of_lines(lines)) }
}

/// The addon that an entry holds, or why it holds none.
///
/// The name is looked at first, then the descriptor, then the version
/// that the descriptor declares.
pub open spec fn addon_of(entry: EntryView) -> Result<AddonView, ErrorView> {
    match entry.name {
        EntryNameView::Missing => Err(ErrorView::NotFolder),
        EntryNameView::Invalid(_) => Err(ErrorView::InvalidName),
        EntryNameView::Valid(name) => match entry.descriptor {
            None => Err(ErrorView::DescriptorUnreadable(descriptor_name(name))),
            Some(lines) => {
                let tags = tags_of_lines(lines);
                if tags.contains_key("Version"@) && lenient_version(tags["Version"@]) is None {
                    Err(ErrorView::VersionUnparseable(tags["Version"@]))
                } else {
                    Ok(AddonView { name: name, dir: entry.path, toc: toc_of_lines(lines) })
                }
            },
        },
    }
}

/// The addon that a listing shows for an entry, if it shows one.
///
/// An entry without a valid name or without a descriptor is left out. An
/// addon whose version cannot be read is shown without a version.
pub open spec fn listed(entry: EntryView) -> Option<AddonView> {
    match (entry.name, entry.descriptor) {
        (EntryNameView::Valid(name), Some(lines)) => Some(
            AddonView { name: name, dir: entry.path, toc: toc_of_lines(lines) },
        ),
        _ => None,
    }
}

/// The directories among the entries, in their order.
pub open spec fn directories(entries: Seq<EntryView>) -> Seq<EntryView>
    decreases entries.len(),
{
    if entries.len() == 0 {
        Seq::empty()
    } else if entries.last().is_dir {
        directories(entries.drop_last()).push(entries.last())
    } else {
        directories(entries.drop_last())
    }
}

/// The addons that a listing shows for these folders, in their order.
pub open spec fn addons_of(folders: Seq<EntryView>) -> Seq<AddonView>
    decreases folders.len(),
{
    if folders.len() == 0 {
        Seq::empty()
    } else {
        match listed(folders.last()) {
            Some(addon) => addons_of(folders.drop_last()).push(addon),
            None => addons_of(folders.drop_last()),
        }
    }
}

/// The addons that are installed under a root with these entries: those
/// that a listing shows for the directories among them.
pub open spec fn installed(entries: Seq<EntryView>) -> Seq<AddonView> {
    addons_of(directories(entries))
}

/// The text that an entry's name is compared by, if it has a name.
pub open spec fn name_text(name: EntryNameView) -> Option<Seq<char>> {
    match name {
        EntryNameView::Missing => None,
        EntryNameView::Invalid(shown) => Some(shown),
        EntryNameView::Valid(name) => Some(name),
    }
}

/// Whether an entry bears the name `name`, whatever the case of the letters.
pub open spec fn bears_name(entry: EntryView, name: Seq<char>) -> bool {
    match name_text(entry.name) {
        Some(own) => lowercase(own) == lowercase(name),
        None => false,
    }
}

/// Whether number `at` is the first of the folders that bears the name.
pub open spec fn is_first_bearing(folders: Seq<EntryView>, name: Seq<char>, at: int) -> bool {
    &&& 0 <= at < folders.len()
    &&& bears_name(folders[at], name)
    &&& forall|before: int| 0 <= before < at ==> !bears_name(#[trigger] folders[before], name)
}

/// Whether number `at` is the first of the texts that equals `wanted`.
pub open spec fn is_first_equal(folded: Seq<Option<String>>, wanted: Seq<char>, at: int) -> bool {
    &&& 0 <= at < folded.len()
    &&& folded[at] matches Some(text)
    &&& text@ == wanted
    &&& forall|before: int|
        0 <= before < at ==> !(#[trigger] folded[before] matches Some(text) && text@ == wanted)
}

/// The line that names an addon in a listing: the name, and behind a
/// space the version where there is one.
pub open spec fn label_text(addon: AddonView) -> Seq<char> {
    match addon.toc.version {
        Some(v) => addon.name + " "@ + version_text(v),
        None => addon.name,
    }
}

/// The lines that describe an addon, given the quoted path of its
/// directory: the label, the notes and the author where the descriptor has
/// them, the path, and the dependencies where there are any.
pub open spec fn description_lines(addon: AddonView, quoted_dir: Seq<char>) -> Seq<Seq<char>> {
    let tags = addon.toc.tags;
    seq![label_text(addon)] + if tags.contains_key("Notes"@) {
        seq![tags["Notes"@]]
    } else {
        Seq::empty()
    } + if tags.contains_key("Author"@) {
        seq!["Author: "@ + tags["Author"@]]
    } else {
        Seq::empty()
    } + seq!["Path: "@ + quoted_dir] + if dependencies_of(tags).len() > 0 {
        seq!["Dependencies: "@ + join(dependencies_of(tags), ", "@)]
    } else {
        Seq::empty()
    }
}

/// The description of an addon, given the quoted path of its directory:
/// its lines, one below the other.
pub open spec fn description_text(addon: AddonView, quoted_dir: Seq<char>) -> Seq<char> {
    join(description_lines(addon, quoted_dir), "\n"@)
}

/// The name of the file that describes the addon `name`: the name followed
/// by `.toc`.
pub fn descriptor_file_name(name: &str) -> (file: String)
    ensures
        file@ == descriptor_name(name@),
{
    String::from_str(name).concat(".toc")
}

/// The folders among the entries of the root directory.
///
/// `listing` holds the entries that the caller found in the root, or `None`
/// where it could not open the root. Fails only then, with
/// `DirectoryUnreadable`, which holds the root's path.
pub fn list_addon_folders(addons_dir: Dir, listing: Option<Vec<Entry>>) -> (folders: Result<
    Vec<Entry>,
    Error,
>)
    ensures
        match folders {
            Ok(folders) => listing matches Some(entries) && entry_views(folders@) == directories(
                entry_views(entries@),
            ),
            Err(e) => listing is None && e@ == ErrorView::DirectoryUnreadable(addons_dir.root()),
        },
{
    let entries = match listing {
        None => {
            return Err(Error::DirectoryUnreadable(String::from_str(addons_dir.path())));
        },
        Some(entries) => entries,
    };
    let ghost all = entry_views(entries@);
    let mut folders: Vec<Entry> = Vec::new();
    for entry in it: entries.into_iter()
        invariant
            entry_views(it.seq()) == all,
            entry_views(folders@) == directories(all.take(it.index() as int)),
    {
        let ghost seen = all.take(it.index() as int + 1);
        assert(seen.drop_last() == all.take(it.index() as int));
        assert(seen.last() == entry@);
        let ghost before = folders@;
        if entry.is_dir {
            folders.push(entry);
            assert(entry_views(folders@) == entry_views(before).push(entry@));
        }
    }
    assert(all.take(all.len() as int) == all);
    Ok(folders)
}

/// The position of the first text in `folded` that equals `wanted`.
pub fn first_equal(folded: &Vec<Option<String>>, wanted: &String) -> (found: Option<usize>)
    ensures
        match found {
            Some(at) => is_first_equal(folded@, wanted@, at as int),
            None => forall|at: int|
                0 <= at < folded.len() ==> !(#[trigger] folded[at] matches Some(text) && text@
                    == wanted@),
        },
{
    let mut at: usize = 0;
    while at < folded.len()
        invariant
            at <= folded.len(),
            forall|before: int|
                0 <= before < at ==> !(#[trigger] folded[before] matches Some(text) && text@
                    == wanted@),
        decreases folded.len() - at,
    {
        match &folded[at] {
            Some(text) => {
                if *text == *wanted {
                    return Some(at);
                }
            },
            None => {},
        }
        at += 1;
    }
    None
}

/// Looks up the folder of the name `name` among the entries of the root
/// directory, whatever the case of the letters.
///
/// `listing` is what `list_addon_folders` takes. Returns the first folder
/// that bears the name. Fails with `DirectoryUnreadable` where there is no
/// listing, and with `NotFound` where no folder bears the name.
pub fn by_name(addons_dir: Dir, listing: Option<Vec<Entry>>, name: &str) -> (found: Result<
    Entry,
    Error,
>)
    ensures
        match found {
            Ok(entry) => listing matches Some(entries) && exists|at: int|
                is_first_bearing(directories(entry_views(entries@)), name@, at) && directories(
                    entry_views(entries@),
                )[at] == entry@,
            Err(e) => match listing {
                Some(entries) => e@ == ErrorView::NotFound && forall|at: int|
                    !is_first_bearing(directories(entry_views(entries@)), name@, at),
                None => e@ == ErrorView::DirectoryUnreadable(addons_dir.root()),
            },
        },
{
    let mut folders = match list_addon_folders(addons_dir, listing) {
        Ok(folders) => folders,
        Err(e) => {
            return Err(e);
        },
    };
    let ghost views = entry_views(folders@);
    let wanted = fold_case(name);
    let mut folded: Vec<Option<String>> = Vec::new();
    let mut at: usize = 0;
    while at < folders.len()
        invariant
            at <= folders.len(),
            folded.len() == at,
            views == entry_views(folders@),
            wanted@ == lowercase(name@),
            forall|i: int|
                0 <= i < at ==> (#[trigger] folded[i] matches Some(text) && text@ == wanted@)
                    == bears_name(views[i], name@),
        decreases folders.len() - at,
    {
        let own = match &folders[at].name {
            EntryName::Missing => None,
            EntryName::Invalid(shown) => Some(fold_case(shown.as_str())),
            EntryName::Valid(name) => Some(fold_case(name.as_str())),
        };
        folded.push(own);
        at += 1;
    }
    match first_equal(&folded, &wanted) {
        Some(at) => {
            let entry = folders.remove(at);
            proof {
                assert(is_first_bearing(views, name@, at as int)) by {
                    assert forall|before: int| 0 <= before < at implies !bears_name(
                        #[trigger] views[before],
                        name@,
                    ) by {
                        assert(!(folded[before] matches Some(text) && text@ == wanted@));
                    }
                }
                assert(views[at as int] == entry@);
            }
            Ok(entry)
        },
        None => {
            proof {
                assert forall|at: int| !is_first_bearing(views, name@, at) by {
                    if 0 <= at < views.len() {
                        assert(!(folded[at] matches Some(text) && text@ == wanted@));
                    }
                }
            }
            Err(Error::NotFound)
        },
    }
}

impl Addon {
    /// Makes the addon that an entry holds.
    ///
    /// Fails with `NotFolder` or `InvalidName` where the entry has no valid
    /// name, else with `DescriptorUnreadable`, which holds the descriptor's
    /// file name, where the entry brings no descriptor, else with
    /// `VersionUnparseable` where the descriptor's version cannot be read.
    pub fn try_from(entry: Entry) -> (made: Result<Addon, Error>)
        ensures
            match made {
                Ok(addon) => addon_of(entry@) == Ok::<AddonView, ErrorView>(addon@),
                Err(e) => addon_of(entry@) == Err::<AddonView, ErrorView>(e@),
            },
    {
        let Entry { path, name, is_dir: _, descriptor } = entry;
        let name = match name {
            EntryName::Missing => {
                return Err(Error::NotFolder);
            },
            EntryName::Invalid(_) => {
                return Err(Error::InvalidName);
            },
            EntryName::Valid(name) => name,
        };
        let lines = match descriptor {
            None => {
                return Err(Error::DescriptorUnreadable(descriptor_file_name(name.as_str())));
            },
            Some(lines) => lines,
        };
        match TOC::parse(&lines) {
            Ok(toc) => Ok(Addon { name, dir: path, toc }),
            Err(e) => Err(e),
        }
    }

    /// Makes the addon that a listing shows for an entry, if it shows one.
    pub fn for_listing(entry: Entry) -> (shown: Option<Addon>)
        ensures
            match shown {
                Some(addon) => listed(entry@) == Some(addon@),
                None => listed(entry@) is None,
            },
    {
        let Entry { path, name, is_dir: _, descriptor } = entry;
        match (name, descriptor) {
            (EntryName::Valid(name), Some(lines)) => Some(
                Addon { name, dir: path, toc: TOC::scan(&lines) },
            ),
            _ => None,
        }
    }

    /// The line that names the addon in a listing.
    pub fn to_string(&self) -> (label: String)
        ensures
            label@ == label_text(self@),
    {
        match self.toc.version() {
            Some(v) => String::from_str(self.name.as_str()).concat(" ").concat(
                v.to_string().as_str(),
            ),
            None => String::from_str(self.name.as_str()),
        }
    }

    /// Describes the addon, given the quoted path of its directory.
    pub fn describe(&self, quoted_dir: &str) -> (description: String)
        ensures
            description@ == description_text(self@, quoted_dir@),
    {
        let mut lines: Vec<String> = Vec::new();
        lines.push(self.to_string());
        assert(texts(lines@) == seq![label_text(self@)]);
        match self.toc.notes() {
            Some(notes) => {
                let ghost before = lines@;
                lines.push(notes.clone());
                assert(texts(lines@) == texts(before).push(notes@));
            },
            None => {},
        }
        match self.toc.author() {
            Some(author) => {
                let ghost before = lines@;
                let line = String::from_str("Author: ").concat(author.as_str());
                lines.push(line);
                assert(texts(lines@) == texts(before).push(line@));
            },
            None => {},
        }
        let ghost before = lines@;
        let line = String::from_str("Path: ").concat(quoted_dir);
        lines.push(line);
        assert(texts(lines@) == texts(before).push(line@));
        let deps = self.toc.dependencies();
        if deps.len() > 0 {
            let ghost before = lines@;
            let line = String::from_str("Dependencies: ").concat(join_with(&deps, ", ").as_str());
            lines.push(line);
            assert(texts(lines@) == texts(before).push(line@));
        }
        assert(texts(lines@) == description_lines(self@, quoted_dir@));
        join_with(&lines, "\n")
    }

    /// Describes the addon: its label, its notes and its author where the
    /// descriptor has them, the quoted path of its directory, and its
    /// dependencies where there are any, one below the other.
    pub fn description(&self) -> (description: String)
        ensures
            description@ == description_text(self@, quoted(self@.dir)),
    {
        let quoted_dir = quote(self.dir.as_str());
        self.describe(quoted_dir.as_str())
    }

    /// The addon's name.
    pub fn name(&self) -> (name: &String)
        ensures
            name@ == self@.name,
    {
        &self.name
    }

    /// The path of the addon's directory.
    pub fn dir(&self) -> (dir: &String)
        ensures
            dir@ == self@.dir,
    {
        &self.dir
    }

    /// What the addon's descriptor says.
    pub fn toc(&self) -> (toc: &TOC)
        ensures
            toc@ == self@.toc,
    {
        &self.toc
    }
}

/// Why a listing leaves an entry out, if it leaves it out: the error that
/// making an addon of the entry fails with.
pub fn left_out(entry: &Entry) -> (reason: Option<Error>)
    ensures
        match reason {
            Some(e) => listed(entry@) is None && addon_of(entry@) == Err::<AddonView, ErrorView>(
                e@,
            ),
            None => listed(entry@) is Some,
        },
{
    match &entry.name {
        EntryName::Missing => Some(Error::NotFolder),
        EntryName::Invalid(_) => Some(Error::InvalidName),
        EntryName::Valid(name) => match &entry.descriptor {
            None => Some(Error::DescriptorUnreadable(descriptor_file_name(name.as_str()))),
            Some(_) => None,
        },
    }
}

/// The addons that are installed under the root directory.
///
/// `listing` is what `list_addon_folders` takes, each folder with its
/// descriptor. Fails only where there is no listing, with
/// `DirectoryUnreadable`. A folder without a valid name or without a
/// descriptor is left out; an addon whose version cannot be read is listed
/// without a version.
pub fn list_installed(addons_dir: Dir, listing: Option<Vec<Entry>>) -> (addons: Result<
    Vec<Addon>,
    Error,
>)
    ensures
        match addons {
            Ok(addons) => listing matches Some(entries) && addon_views(addons@) == installed(
                entry_views(entries@),
            ),
            Err(e) => listing is None && e@ == ErrorView::DirectoryUnreadable(addons_dir.root()),
        },
{
    let folders = match list_addon_folders(addons_dir, listing) {
        Ok(folders) => folders,
        Err(e) => {
            return Err(e);
        },
    };
    let ghost all = entry_views(folders@);
    let mut addons: Vec<Addon> = Vec::new();
    for folder in it: folders.into_iter()
        invariant
            entry_views(it.seq()) == all,
            addon_views(addons@) == addons_of(all.take(it.index() as int)),
    {
        let ghost seen = all.take(it.index() as int + 1);
        assert(seen.drop_last() == all.take(it.index() as int));
        assert(seen.last() == folder@);
        let ghost before = addons@;
        match Addon::for_listing(folder) {
            Some(addon) => {
                addons.push(addon);
                assert(addon_views(addons@) == addon_views(before).push(addon@));
            },
            None => {},
        }
    }
    assert(all.take(all.len() as int) == all);
    Ok(addons)
}

/// Whether the addons stand in the order of their names.
pub open spec fn in_name_order(addons: Seq<AddonView>) -> bool {
    forall|i: int, j: int|
        0 <= i < j < addons.len() ==> precedes(
            (#[trigger] addons[i]).name,
            (#[trigger] addons[j]).name,
        )
}

/// Puts addons in the order of their names, as a listing presents them.
///
/// The result holds the same addons, each as often as before, and every
/// name in it stands at or before the place of each name that follows it.
pub fn sort_by_name(addons: Vec<Addon>) -> (sorted: Vec<Addon>)
    ensures
        addon_views(sorted@).to_multiset() == addon_views(addons@).to_multiset(),
        in_name_order(addon_views(sorted@)),
        sorted.len() == addons.len(),
{
    let ghost all = addon_views(addons@);
    let mut sorted: Vec<Addon> = Vec::new();
    assert(addon_views(sorted@) == all.take(0));
    for addon in it: addons.into_iter()
        invariant
            addon_views(it.seq()) == all,
            addon_views(sorted@).to_multiset() == all.take(it.index() as int).to_multiset(),
            in_name_order(addon_views(sorted@)),
            sorted.len() == it.index(),
    {
        let ghost placed = addon_views(sorted@);
        let ghost name = addon@.name;
        let mut at: usize = 0;
        while at < sorted.len() && comes_before(sorted[at].name.as_str(), addon.name.as_str())
            invariant
                at <= sorted.len(),
                placed == addon_views(sorted@),
                name == addon@.name,
                forall|i: int| 0 <= i < at ==> precedes((#[trigger] placed[i]).name, name),
            decreases sorted.len() - at,
        {
            at += 1;
        }
        proof {
            assert forall|j: int| at <= j < placed.len() implies precedes(
                name,
                (#[trigger] placed[j]).name,
            ) by {
                lemma_precedes_is_total(placed[at as int].name, name);
                if at < j {
                    lemma_precedes_is_transitive(name, placed[at as int].name, placed[j].name);
                }
            }
            assert(all.take(it.index() as int + 1) == all.take(it.index() as int).push(addon@));
            vstd::seq_lib::to_multiset_build(all.take(it.index() as int), addon@);
            vstd::seq_lib::to_multiset_insert(placed, at as int, addon@);
        }
        sorted.insert(at, addon);
        proof {
            let after = addon_views(sorted@);
            assert(after == placed.insert(at as int, addon@));
            assert forall|i: int, j: int| 0 <= i < j < after.len() implies precedes(
                (#[trigger] after[i]).name,
                (#[trigger] after[j]).name,
            ) by {
                if i < at && j > at {
                    assert(after[i] == placed[i]);
                    assert(after[j] == placed[j - 1]);
                } else if i < at && j < at {
                    assert(after[i] == placed[i]);
                    assert(after[j] == placed[j]);
                } else if i > at {
                    assert(after[i] == placed[i - 1]);
                    assert(after[j] == placed[j - 1]);
                } else if i == at {
                    assert(after[j] == placed[j - 1]);
                } else {
                    assert(after[i] == placed[i]);
                }
            }
        }
    }
    assert(all.take(all.len() as int) == all);
    sorted
}

/// The directories among two runs of entries are those of the first run
/// followed by those of the second.
pub proof fn lemma_directories_of_concat(first: Seq<EntryView>, second: Seq<EntryView>)
    ensures
        directories(first + second) == directories(first) + directories(second),
    decreases second.len(),
{
    if second.len() == 0 {
        assert(first + second == first);
    } else {
        lemma_directories_of_concat(first, second.drop_last());
        assert((first + second).drop_last() == first + second.drop_last());
    }
}

/// The addons that a listing shows for two runs of folders are those of the
/// first run followed by those of the second.
pub proof fn lemma_addons_of_concat(first: Seq<EntryView>, second: Seq<EntryView>)
    ensures
        addons_of(first + second) == addons_of(first) + addons_of(second),
    decreases second.len(),
{
    if second.len() == 0 {
        assert(first + second == first);
    } else {
        lemma_addons_of_concat(first, second.drop_last());
        assert((first + second).drop_last() == first + second.drop_last());
    }
}

/// What is installed under a root is found entry by entry: the addons of
/// two runs of entries are those of the first run followed by those of the
/// second.
pub proof fn lemma_installed_of_concat(first: Seq<EntryView>, second: Seq<EntryView>)
    ensures
        installed(first + second) == installed(first) + installed(second),
{
    lemma_directories_of_concat(first, second);
    lemma_addons_of_concat(directories(first), directories(second));
}

/// A single entry contributes the addon that a listing shows for it if it
/// is a directory, and nothing if it is not.
pub proof fn lemma_installed_of_one(entry: EntryView)
    ensures
        installed(seq![entry]) == if entry.is_dir && listed(entry) is Some {
            seq![listed(entry)->0]
        } else {
            Seq::empty()
        },
{
    let one = seq![entry];
    assert(one.drop_last() == Seq::<EntryView>::empty());
    assert(directories(one.drop_last()) == Seq::<EntryView>::empty());
    if entry.is_dir {
        let dirs = directories(one);
        assert(dirs == seq![entry]);
        assert(dirs.drop_last() == Seq::<EntryView>::empty());
        assert(addons_of(dirs.drop_last()) == Seq::<AddonView>::empty());
    }
}

/// An entry that is no directory never adds to what is installed, wherever
/// it stands among the entries.
pub proof fn lemma_files_are_not_installed(
    before: Seq<EntryView>,
    file: EntryView,
    after: Seq<EntryView>,
)
    requires
        !file.is_dir,
    ensures
        installed(before + seq![file] + after) == installed(before + after),
{
    lemma_installed_of_concat(before + seq![file], after);
    lemma_installed_of_concat(before, seq![file]);
    lemma_installed_of_one(file);
    lemma_installed_of_concat(before, after);
    assert(installed(before) + Seq::<AddonView>::empty() == installed(before));
}

/// Whether a listing shows an addon for the entry: whether the entry is a
/// directory with a valid name and a descriptor.
pub open spec fn is_shown(entry: EntryView) -> bool {
    entry.is_dir && listed(entry) is Some
}

/// The place among the entries of the one that number `k` of the installed
/// addons was made of.
pub open spec fn source(entries: Seq<EntryView>, k: int) -> int
    decreases entries.len(),
{
    if entries.len() == 0 {
        0
    } else if is_shown(entries.last()) && k == installed(entries.drop_last()).len() {
        entries.len() - 1
    } else {
        source(entries.drop_last(), k)
    }
}

/// What is installed under the entries is what is installed under all but
/// the last of them, and then the addon of the last one if a listing shows
/// one for it.
pub proof fn lemma_installed_unfolds(entries: Seq<EntryView>)
    requires
        entries.len() > 0,
    ensures
        installed(entries) == if is_shown(entries.last()) {
            installed(entries.drop_last()).push(listed(entries.last())->0)
        } else {
            installed(entries.drop_last())
        },
{
    let rest = entries.drop_last();
    let last = entries.last();
    if last.is_dir {
        let dirs = directories(entries);
        assert(dirs == directories(rest).push(last));
        assert(dirs.drop_last() == directories(rest));
        assert(dirs.last() == last);
    }
}

/// Every installed addon was made of an entry that is a directory: it is
/// the addon that a listing shows for that entry, and it has the entry's
/// path.
pub proof fn lemma_installed_addon_has_its_source(entries: Seq<EntryView>, k: int)
    requires
        0 <= k < installed(entries).len(),
    ensures
        0 <= source(entries, k) < entries.len(),
        entries[source(entries, k)].is_dir,
        listed(entries[source(entries, k)]) == Some(installed(entries)[k]),
        installed(entries)[k].dir == entries[source(entries, k)].path,
    decreases entries.len(),
{
    if entries.len() > 0 {
        lemma_installed_unfolds(entries);
        let rest = entries.drop_last();
        if !(is_shown(entries.last()) && k == installed(rest).len()) {
            lemma_installed_addon_has_its_source(rest, k);
            assert(entries[source(rest, k)] == rest[source(rest, k)]);
        }
    }
}

/// The installed addons stand in the order of the entries that they were
/// made of, and no entry makes two of them.
pub proof fn lemma_sources_keep_their_order(entries: Seq<EntryView>, k: int, l: int)
    requires
        0 <= k < l < installed(entries).len(),
    ensures
        source(entries, k) < source(entries, l),
    decreases entries.len(),
{
    if entries.len() > 0 {
        lemma_installed_unfolds(entries);
        let rest = entries.drop_last();
        if is_shown(entries.last()) && l == installed(rest).len() {
            lemma_installed_addon_has_its_source(rest, k);
        } else {
            lemma_sources_keep_their_order(rest, k, l);
        }
    }
}

/// Under a root whose entries have each a path of its own, no installed
/// addon has the path of an entry that is no directory, and no two
/// installed addons have the same path.
pub proof fn lemma_installed_paths_are_those_of_directories(entries: Seq<EntryView>)
    requires
        forall|i: int, j: int|
            0 <= i < j < entries.len() ==> (#[trigger] entries[i]).path != (
            #[trigger] entries[j]).path,
    ensures
        forall|k: int, i: int|
            0 <= k < installed(entries).len() && 0 <= i < entries.len() && !(
            #[trigger] entries[i]).is_dir ==> (#[trigger] installed(entries)[k]).dir
                != entries[i].path,
        forall|k: int, l: int|
            0 <= k < l < installed(entries).len() ==> (#[trigger] installed(entries)[k]).dir != (
            #[trigger] installed(entries)[l]).dir,
{
    let shown = installed(entries);
    assert forall|k: int, i: int|
        0 <= k < shown.len() && 0 <= i < entries.len() && !(#[trigger] entries[i]).is_dir implies (
    #[trigger] shown[k]).dir != entries[i].path by {
        lemma_installed_addon_has_its_source(entries, k);
        let from = source(entries, k);
        if from < i {
            assert(entries[from].path != entries[i].path);
        } else if i < from {
            assert(entries[i].path != entries[from].path);
        }
    }
    assert forall|k: int, l: int| 0 <= k < l < shown.len() implies (#[trigger] shown[k]).dir != (
    #[trigger] shown[l]).dir by {
        lemma_installed_addon_has_its_source(entries, k);
        lemma_installed_addon_has_its_source(entries, l);
        lemma_sources_keep_their_order(entries, k, l);
        assert(entries[source(entries, k)].path != entries[source(entries, l)].path);
    }
}

/// A folder bears its own name.
pub proof fn lemma_own_name_is_borne(entry: EntryView, name: Seq<char>)
    requires
        name_text(entry.name) == Some(name),
    ensures
        bears_name(entry, name),
{
}

} // verus!
