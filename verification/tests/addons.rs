use addons::addon::{
    by_name, descriptor_file_name, first_equal, left_out, list_addon_folders, list_installed,
    sort_by_name,
    Addon, Dir, Entry, EntryName, DEFAULT_DIR,
};
use addons::text::comes_before;
use addons::error::Error;
use addons::version::Version;

fn folder(name: &str, descriptor: Option<&[&str]>) -> Entry {
    Entry {
        path: format!("/addons/{}", name),
        name: EntryName::Valid(name.to_string()),
        is_dir: true,
        descriptor: descriptor.map(|lines| lines.iter().map(|l| l.to_string()).collect()),
    }
}

fn file(name: &str) -> Entry {
    Entry {
        path: format!("/addons/{}", name),
        name: EntryName::Valid(name.to_string()),
        is_dir: false,
        descriptor: None,
    }
}

fn made(entry: Entry) -> Addon {
    match Addon::try_from(entry) {
        Ok(addon) => addon,
        Err(e) => panic!("{}", e.message()),
    }
}

fn refusal(entry: Entry) -> Error {
    match Addon::try_from(entry) {
        Ok(_) => panic!("accepted"),
        Err(e) => e,
    }
}

fn root() -> Dir<'static> {
    Dir::Custom("/addons")
}

#[test]
fn root_is_the_custom_path_or_the_default() {
    assert_eq!(Dir::Custom("/somewhere/else").path(), "/somewhere/else");
    assert_eq!(Dir::Default.path(), DEFAULT_DIR);
    assert_eq!(
        Dir::Default.path(),
        "/Applications/World of Warcraft/_retail_/Interface/Addons"
    );
}

#[test]
fn descriptor_is_named_after_the_folder() {
    assert_eq!(descriptor_file_name("MyAddon"), "MyAddon.toc");
    assert_eq!(descriptor_file_name("Lib.Stub"), "Lib.Stub.toc");
    assert_eq!(descriptor_file_name(""), ".toc");
}

#[test]
fn scan_lists_the_directory_and_not_the_file() {
    let listing = vec![
        file("readme.txt"),
        folder("MyAddon", Some(&["## Title: My Addon", "## Version: 1.2"])),
    ];
    let addons = match list_installed(root(), Some(listing)) {
        Ok(addons) => addons,
        Err(e) => panic!("{}", e.message()),
    };
    assert_eq!(addons.len(), 1);
    assert_eq!(addons[0].name, "MyAddon");
    assert_eq!(addons[0].dir(), "/addons/MyAddon");
    let expected = Version { major: 1, minor: 2, patch: 0, pre: Vec::new(), build: Vec::new() };
    assert_eq!(addons[0].toc().version(), Some(&expected));
}

#[test]
fn file_with_a_descriptor_is_still_no_addon() {
    let mut stray = file("Stray");
    stray.descriptor = Some(vec!["## Version: 1.0.0".to_string()]);
    let addons = list_installed(root(), Some(vec![stray])).unwrap();
    assert_eq!(addons.len(), 0);
}

#[test]
fn folders_keep_their_order() {
    let listing = vec![
        folder("Zeta", None),
        file("a.txt"),
        folder("Alpha", None),
        file("b.txt"),
        folder("Mid", None),
    ];
    let folders = list_addon_folders(root(), Some(listing)).unwrap();
    let names: Vec<&EntryName> = folders.iter().map(|f| &f.name).collect();
    assert_eq!(
        names,
        vec![
            &EntryName::Valid("Zeta".to_string()),
            &EntryName::Valid("Alpha".to_string()),
            &EntryName::Valid("Mid".to_string()),
        ]
    );
    assert_eq!(list_addon_folders(root(), Some(Vec::new())), Ok(Vec::new()));
}

#[test]
fn unreadable_root_fails_the_whole_listing() {
    assert_eq!(
        list_addon_folders(root(), None),
        Err(Error::DirectoryUnreadable("/addons".to_string()))
    );
    match list_installed(Dir::Default, None) {
        Ok(_) => panic!("listed"),
        Err(e) => assert_eq!(e, Error::DirectoryUnreadable(DEFAULT_DIR.to_string())),
    }
    assert_eq!(
        by_name(Dir::Custom("/x"), None, "Any"),
        Err(Error::DirectoryUnreadable("/x".to_string()))
    );
}

#[test]
fn listing_goes_on_past_folders_that_are_no_addons() {
    let nameless = Entry {
        path: "/addons/..".to_string(),
        name: EntryName::Missing,
        is_dir: true,
        descriptor: None,
    };
    let garbled = Entry {
        path: "/addons/\u{fffd}".to_string(),
        name: EntryName::Invalid("\u{fffd}".to_string()),
        is_dir: true,
        descriptor: Some(vec!["## Version: 1.0.0".to_string()]),
    };
    let listing = vec![
        folder("First", Some(&["## Version: 1.0.0"])),
        folder("NoDescriptor", None),
        nameless,
        garbled,
        folder("OddVersion", Some(&["## Version: nonsense", "## Notes: kept"])),
        folder("Last", Some(&[])),
    ];
    let addons = list_installed(root(), Some(listing)).unwrap();
    let names: Vec<&str> = addons.iter().map(|a| a.name.as_str()).collect();
    assert_eq!(names, vec!["First", "OddVersion", "Last"]);
    assert_eq!(addons[1].toc().version(), None);
    assert_eq!(addons[1].toc().notes().map(|n| n.as_str()), Some("kept"));
    assert_eq!(addons[2].toc().version(), None);
}

#[test]
fn lookup_ignores_case() {
    let listing = vec![folder("Other", None), folder("myaddon", None), folder("MYADDON", None)];
    let found = by_name(root(), Some(listing), "MyAddon").unwrap();
    assert_eq!(found.name, EntryName::Valid("myaddon".to_string()));
    assert_eq!(found.path, "/addons/myaddon");
    let listing = vec![folder("ÄDDON", None)];
    let found = by_name(root(), Some(listing), "äddon").unwrap();
    assert_eq!(found.name, EntryName::Valid("ÄDDON".to_string()));
}

#[test]
fn lookup_of_an_unknown_name_finds_nothing() {
    let listing = vec![folder("Other", None), folder("myaddon", None)];
    assert_eq!(by_name(root(), Some(listing), "Missing"), Err(Error::NotFound));
    assert_eq!(by_name(root(), Some(Vec::new()), "MyAddon"), Err(Error::NotFound));
    let listing = vec![folder("MyAddon2", None)];
    assert_eq!(by_name(root(), Some(listing), "MyAddon"), Err(Error::NotFound));
}

#[test]
fn lookup_passes_over_files() {
    let listing = vec![file("MyAddon"), folder("myaddon", None)];
    let found = by_name(root(), Some(listing), "MYADDON").unwrap();
    assert!(found.is_dir);
    assert_eq!(found.name, EntryName::Valid("myaddon".to_string()));
    assert_eq!(by_name(root(), Some(vec![file("MyAddon")]), "MyAddon"), Err(Error::NotFound));
}

#[test]
fn lookup_compares_a_garbled_name_as_it_is_shown() {
    let garbled = Entry {
        path: "/addons/x".to_string(),
        name: EntryName::Invalid("Bad\u{fffd}".to_string()),
        is_dir: true,
        descriptor: None,
    };
    let found = by_name(root(), Some(vec![garbled]), "bad\u{fffd}").unwrap();
    assert_eq!(refusal(found), Error::InvalidName);
}

#[test]
fn first_equal_text_is_found() {
    let folded = vec![None, Some("b".to_string()), Some("a".to_string()), Some("b".to_string())];
    assert_eq!(first_equal(&folded, &"b".to_string()), Some(1));
    assert_eq!(first_equal(&folded, &"a".to_string()), Some(2));
    assert_eq!(first_equal(&folded, &"c".to_string()), None);
    assert_eq!(first_equal(&Vec::new(), &"a".to_string()), None);
}

#[test]
fn addon_is_made_of_name_path_and_descriptor() {
    let addon = made(folder("MyAddon", Some(&["## Version: 1.2.3", "## Author: Jo"])));
    assert_eq!(addon.name, "MyAddon");
    assert_eq!(addon.name(), "MyAddon");
    assert_eq!(addon.dir(), "/addons/MyAddon");
    assert_eq!(addon.toc().author().map(|a| a.as_str()), Some("Jo"));
    assert_eq!(addon.to_string(), "MyAddon 1.2.3");
}

#[test]
fn entry_that_is_no_addon_is_refused() {
    let nameless = Entry {
        path: "/addons/..".to_string(),
        name: EntryName::Missing,
        is_dir: true,
        descriptor: Some(Vec::new()),
    };
    assert_eq!(refusal(nameless), Error::NotFolder);
    let garbled = Entry {
        path: "/addons/\u{fffd}".to_string(),
        name: EntryName::Invalid("\u{fffd}".to_string()),
        is_dir: true,
        descriptor: Some(Vec::new()),
    };
    assert_eq!(refusal(garbled), Error::InvalidName);
    assert_eq!(
        refusal(folder("Bare", None)),
        Error::DescriptorUnreadable("Bare.toc".to_string())
    );
    assert_eq!(
        refusal(folder("Odd", Some(&["## Version: nonsense"]))),
        Error::VersionUnparseable("nonsense".to_string())
    );
}

#[test]
fn label_is_the_name_and_the_version() {
    assert_eq!(made(folder("A", Some(&["## Version: v2.5"]))).to_string(), "A 2.5.0");
    assert_eq!(made(folder("A", Some(&["## Title: T"]))).to_string(), "A");
    assert_eq!(
        made(folder("A", Some(&["## Version: 1.0.0-rc.1+7"]))).to_string(),
        "A 1.0.0-rc.1+7"
    );
}

#[test]
fn description_lists_what_the_descriptor_has() {
    let addon = made(folder(
        "MyAddon",
        Some(&[
            "## Title: My Addon",
            "## Version: 1.2",
            "## Notes: Does things",
            "## Author: Jo",
            "## Dependencies: LibA, LibB",
        ]),
    ));
    assert_eq!(
        addon.description(),
        "MyAddon 1.2.0\nDoes things\nAuthor: Jo\nPath: \"/addons/MyAddon\"\nDependencies: LibA, LibB"
    );
}

#[test]
fn description_leaves_out_what_is_missing() {
    let addon = made(folder("Bare", Some(&[])));
    assert_eq!(addon.description(), "Bare\nPath: \"/addons/Bare\"");
    let noted = made(folder("Noted", Some(&["## Notes: n"])));
    assert_eq!(noted.description(), "Noted\nn\nPath: \"/addons/Noted\"");
}

#[test]
fn description_quotes_the_path() {
    let entry = Entry {
        path: "C:\\Games\\A \"b\"".to_string(),
        name: EntryName::Valid("A".to_string()),
        is_dir: true,
        descriptor: Some(Vec::new()),
    };
    assert_eq!(made(entry).description(), "A\nPath: \"C:\\\\Games\\\\A \\\"b\\\"\"");
}

#[test]
fn describe_takes_the_path_as_it_is_given() {
    let addon = made(folder("A", Some(&["## Author: Jo", "## Dependencies: X"])));
    assert_eq!(addon.describe("<here>"), "A\nAuthor: Jo\nPath: <here>\nDependencies: X");
}

#[test]
fn each_error_has_its_message() {
    assert_eq!(
        Error::DirectoryUnreadable("/r".to_string()).message(),
        "cannot read the addon directory /r"
    );
    assert_eq!(Error::NotFolder.message(), "not a folder");
    assert_eq!(Error::InvalidName.message(), "not a valid utf8");
    assert_eq!(
        Error::DescriptorUnreadable("A.toc".to_string()).message(),
        "cannot read the descriptor A.toc"
    );
    assert_eq!(
        Error::VersionUnparseable("x".to_string()).message(),
        "cannot make a version of x"
    );
    assert_eq!(Error::NotFound.message(), "no addon of that name is installed");
}

#[test]
fn listing_is_put_in_the_order_of_the_names() {
    let names = ["Zeta", "alpha", "Alpha", "Mid", "Ärger", "Alpha2", "", "Z", "Mid"];
    let listing: Vec<Entry> = names.iter().map(|n| folder(n, Some(&[]))).collect();
    let addons = sort_by_name(list_installed(root(), Some(listing)).unwrap());
    let sorted: Vec<&str> = addons.iter().map(|a| a.name.as_str()).collect();
    assert_eq!(sorted, vec!["", "Alpha", "Alpha2", "Mid", "Mid", "Z", "Zeta", "alpha", "Ärger"]);
    let mut expected = names.to_vec();
    expected.sort();
    assert_eq!(sorted, expected);
    assert_eq!(sort_by_name(Vec::new()).len(), 0);
}

#[test]
fn names_are_ordered_as_the_standard_library_orders_them() {
    let texts = ["", "a", "A", "ab", "b", "aa", "Z", "é", "e", "\u{10000}", "\u{ffff}", "z\u{0}"];
    for a in texts {
        for b in texts {
            assert_eq!(comes_before(a, b), a <= b);
        }
    }
}

#[test]
fn entry_that_a_listing_leaves_out_has_its_reason() {
    let nameless = Entry {
        path: "/addons/..".to_string(),
        name: EntryName::Missing,
        is_dir: true,
        descriptor: Some(Vec::new()),
    };
    assert_eq!(left_out(&nameless), Some(Error::NotFolder));
    let garbled = Entry {
        path: "/addons/x".to_string(),
        name: EntryName::Invalid("\u{fffd}".to_string()),
        is_dir: true,
        descriptor: Some(Vec::new()),
    };
    assert_eq!(left_out(&garbled), Some(Error::InvalidName));
    assert_eq!(
        left_out(&folder("Bare", None)),
        Some(Error::DescriptorUnreadable("Bare.toc".to_string()))
    );
    assert_eq!(left_out(&folder("Fine", Some(&[]))), None);
    assert_eq!(left_out(&folder("Odd", Some(&["## Version: nonsense"]))), None);
}

#[test]
fn listed_addon_tells_what_is_wrong_with_its_version() {
    let listing = vec![
        folder("Odd", Some(&["## Version: nonsense"])),
        folder("Fine", Some(&["## Version: 1.2"])),
        folder("None", Some(&["## Title: t"])),
    ];
    let addons = list_installed(root(), Some(listing)).unwrap();
    assert_eq!(
        addons[0].toc().version_error(),
        Some(Error::VersionUnparseable("nonsense".to_string()))
    );
    assert_eq!(addons[1].toc().version_error(), None);
    assert_eq!(addons[2].toc().version_error(), None);
}

#[test]
fn no_addon_is_listed_twice_or_for_a_file() {
    let listing = vec![
        file("a.txt"),
        folder("A", Some(&[])),
        file("B"),
        folder("C", Some(&[])),
        folder("D", None),
    ];
    let addons = list_installed(root(), Some(listing)).unwrap();
    let dirs: Vec<&str> = addons.iter().map(|a| a.dir().as_str()).collect();
    assert_eq!(dirs, vec!["/addons/A", "/addons/C"]);
}
