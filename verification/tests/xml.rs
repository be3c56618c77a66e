use cargo_psx::assets::{bytes_less, sorted_listing, AssetEntry};
use cargo_psx::xml::{generate_xml, written_document};
use xml_builder::XMLError;

fn file(name: &str, source: &str) -> AssetEntry {
    AssetEntry { name: name.to_string(), source: source.to_string(), is_dir: false, children: Vec::new() }
}

fn dir(name: &str, source: &str, children: Vec<AssetEntry>) -> AssetEntry {
    AssetEntry { name: name.to_string(), source: source.to_string(), is_dir: true, children }
}

#[test]
fn description_without_assets() {
    let xml = generate_xml(&Vec::new(), "game", "game", "t/game.exe", None, None).unwrap();
    let expected = "<?xml version=\"1.1\" encoding=\"UTF-8\"?>\n\
<iso_project image_name=\"game.bin\" cue_sheet=\"game.cue\" no_xa=\"0\">\n\
\t<track type=\"data\">\n\
\t\t<identifiers system=\"PLAYSTATION\" application=\"PLAYSTATION\" />\n\
\t\t<directory_tree>\n\
\t\t\t<file name=\"SYSTEM.CNF\" type=\"data\" source=\"SYSTEM.CNF\" />\n\
\t\t\t<file name=\"GAME.EXE\" source=\"t/game.exe\" type=\"data\" />\n\
\t\t\t<dummy sectors=\"1024\" />\n\
\t\t</directory_tree>\n\
\t</track>\n\
</iso_project>\n";
    assert_eq!(String::from_utf8(xml).unwrap(), expected);
}

#[test]
fn description_lists_directories_first_then_names_in_order() {
    let assets = vec![
        file("readme.txt", "assets/readme.txt"),
        dir("music", "assets/music", vec![file("b.vag", "assets/music/b.vag"), file("a.vag", "assets/music/a.vag")]),
        file("Data.bin", "assets/Data.bin"),
        dir("empty", "assets/empty", Vec::new()),
    ];
    let volume = "VOL".to_string();
    let publisher = "Me & <you>".to_string();
    let xml = generate_xml(&assets, "game", "gämé", "t/game.exe", Some(&volume), Some(&publisher)).unwrap();
    let expected = "<?xml version=\"1.1\" encoding=\"UTF-8\"?>\n\
<iso_project image_name=\"game.bin\" cue_sheet=\"game.cue\" no_xa=\"0\">\n\
\t<track type=\"data\">\n\
\t\t<identifiers system=\"PLAYSTATION\" application=\"PLAYSTATION\" volume=\"VOL\" publisher=\"Me &amp; &lt;you&gt;\" />\n\
\t\t<directory_tree>\n\
\t\t\t<file name=\"SYSTEM.CNF\" type=\"data\" source=\"SYSTEM.CNF\" />\n\
\t\t\t<file name=\"GäMé.EXE\" source=\"t/game.exe\" type=\"data\" />\n\
\t\t\t<dir name=\"EMPTY\" />\n\
\t\t\t<dir name=\"MUSIC\">\n\
\t\t\t\t<file name=\"A.VAG\" type=\"data\" source=\"assets/music/a.vag\" />\n\
\t\t\t\t<file name=\"B.VAG\" type=\"data\" source=\"assets/music/b.vag\" />\n\
\t\t\t</dir>\n\
\t\t\t<file name=\"DATA.BIN\" type=\"data\" source=\"assets/Data.bin\" />\n\
\t\t\t<file name=\"README.TXT\" type=\"data\" source=\"assets/readme.txt\" />\n\
\t\t\t<dummy sectors=\"1024\" />\n\
\t\t</directory_tree>\n\
\t</track>\n\
</iso_project>\n";
    assert_eq!(String::from_utf8(xml).unwrap(), expected);
}

#[test]
fn asset_names_use_unicode_uppercase() {
    let assets = vec![file("straße.tim", "a/straße.tim")];
    let xml = String::from_utf8(generate_xml(&assets, "g", "g", "t", None, None).unwrap()).unwrap();
    assert!(xml.contains("<file name=\"STRASSE.TIM\" type=\"data\" source=\"a/straße.tim\" />"));
}

#[test]
fn listing_puts_directories_before_files() {
    let entries = vec![file("a", "a"), dir("z", "z", Vec::new()), file("B", "B"), dir("c", "c", Vec::new())];
    assert_eq!(sorted_listing(&entries), vec![3, 1, 2, 0]);
}

#[test]
fn listing_keeps_given_order_for_equal_names() {
    let entries = vec![file("x", "first"), file("x", "second"), file("w", "w")];
    assert_eq!(sorted_listing(&entries), vec![2, 0, 1]);
}

#[test]
fn listing_of_nothing_is_empty() {
    assert!(sorted_listing(&Vec::new()).is_empty());
}

#[test]
fn bytes_compare_lexicographically() {
    assert!(bytes_less(b"ab", b"b"));
    assert!(bytes_less(b"a", b"ab"));
    assert!(!bytes_less(b"ab", b"a"));
    assert!(!bytes_less(b"same", b"same"));
    assert!(bytes_less(b"", b"x"));
    assert!(bytes_less(b"Z", b"a"));
}

#[test]
fn non_ascii_names_order_by_their_bytes() {
    let entries = vec![file("é", "e"), file("z", "z")];
    assert_eq!(sorted_listing(&entries), vec![1, 0]);
}

#[test]
fn written_document_passes_bytes_on_success_only() {
    assert_eq!(written_document(Ok(()), vec![1, 2]).unwrap(), vec![1, 2]);
    assert!(written_document(Err(XMLError::IOError("disk full".to_string())), vec![1]).is_err());
}
