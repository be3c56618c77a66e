//! The description of a CD image that `mkpsxiso` reads: an `iso_project`
//! with one data track whose directory tree holds `SYSTEM.CNF`, the
//! executable, the asset files and a padding entry.

use vstd::prelude::*;
use crate::assets::{listing_order, sorted_listing, AssetEntry};
use crate::text::{ascii_uppercase, to_ascii_uppercase, to_uppercase, unicode_uppercase};
use crate::xml_support::{
    add_attribute, add_child, build_document, builder_encoding, builder_version, document_root,
    document_settings, element_nodes, generate_document, new_builder, new_element,
    set_root_element, shift_nodes, xml_document_text, xml_escaped, XmlNodeView, XmlSettings,
    XmlVersion,
};
use xml_builder::{XMLElement, XMLError, XML};

verus! {

/// A childless element's node: its name and its attributes, values as
/// given (they are stored escaped).
pub open spec fn leaf(name: Seq<char>, attrs: Seq<(Seq<char>, Seq<char>)>) -> XmlNodeView {
    (0, name, attrs.map_values(|a: (Seq<char>, Seq<char>)| (a.0, xml_escaped(a.1))), None, None)
}

/// An element with these attributes whose children have the nodes
/// `children`, one after the other.
pub open spec fn tree(name: Seq<char>, attrs: Seq<(Seq<char>, Seq<char>)>, children: Seq<XmlNodeView>) -> Seq<XmlNodeView> {
    seq![leaf(name, attrs)] + shift_nodes(children, 1)
}

/// The element of one asset: a `dir` named by the uppercase directory name
/// that holds its listing, or a `file` of type `data` named by the
/// uppercase file name, with its host path as source.
pub open spec fn entry_nodes(e: AssetEntry) -> Seq<XmlNodeView>
    decreases e, 0int, 0int,
{
    if e.is_dir {
        tree("dir"@, seq![("name"@, unicode_uppercase(e.name@))], listing_nodes(e.children@))
    } else {
        tree(
            "file"@,
            seq![("name"@, unicode_uppercase(e.name@)), ("type"@, "data"@), ("source"@, e.source@)],
            Seq::empty(),
        )
    }
}

/// The elements of a directory's entries in listing order.
pub open spec fn listing_nodes(entries: Seq<AssetEntry>) -> Seq<XmlNodeView>
    decreases entries, 2int, 0int,
{
    ordered_nodes(entries, listing_order(entries))
}

/// The elements of the entries at the positions in `order`, in that order.
pub open spec fn ordered_nodes(entries: Seq<AssetEntry>, order: Seq<int>) -> Seq<XmlNodeView>
    decreases entries, 1int, order.len(),
{
    if order.len() == 0 {
        Seq::empty()
    } else if 0 <= order.last() < entries.len() {
        ordered_nodes(entries, order.drop_last()) + entry_nodes(entries[order.last()])
    } else {
        ordered_nodes(entries, order.drop_last())
    }
}

/// The description of an image: XML 1.1 in UTF-8.
pub open spec fn iso_settings() -> XmlSettings {
    (true, Some("UTF-8"@), None, true, false, true, false)
}

/// The volume and publisher identifiers, each when given.
pub open spec fn optional_identifiers(volume: Option<Seq<char>>, publisher: Option<Seq<char>>) -> Seq<(Seq<char>, Seq<char>)> {
    (match volume {
        Some(v) => seq![("volume"@, v)],
        None => Seq::empty(),
    }) + (match publisher {
        Some(p) => seq![("publisher"@, p)],
        None => Seq::empty(),
    })
}

/// The element tree of an image description: the image `<image>.bin` with
/// cue sheet `<image>.cue`; one data track identified as a PlayStation disc
/// (with volume and publisher when given); its directory tree holds
/// `SYSTEM.CNF`, the executable as `<APPID>.EXE`, the assets in listing
/// order, and 1024 padding sectors.
pub open spec fn iso_project_nodes(
    image_name: Seq<char>,
    app_id: Seq<char>,
    target_path: Seq<char>,
    volume: Option<Seq<char>>,
    publisher: Option<Seq<char>>,
    assets: Seq<AssetEntry>,
) -> Seq<XmlNodeView> {
    tree(
        "iso_project"@,
        seq![("image_name"@, image_name + ".bin"@), ("cue_sheet"@, image_name + ".cue"@), ("no_xa"@, "0"@)],
        tree(
            "track"@,
            seq![("type"@, "data"@)],
            tree(
                "identifiers"@,
                seq![("system"@, "PLAYSTATION"@), ("application"@, "PLAYSTATION"@)]
                    + optional_identifiers(volume, publisher),
                Seq::empty(),
            ) + tree(
                "directory_tree"@,
                Seq::empty(),
                tree("file"@, seq![("name"@, "SYSTEM.CNF"@), ("type"@, "data"@), ("source"@, "SYSTEM.CNF"@)], Seq::empty())
                    + tree(
                    "file"@,
                    seq![
                        ("name"@, ascii_uppercase(app_id) + ".EXE"@),
                        ("source"@, target_path),
                        ("type"@, "data"@),
                    ],
                    Seq::empty(),
                ) + listing_nodes(assets) + tree("dummy"@, seq![("sectors"@, "1024"@)], Seq::empty()),
            ),
        ),
    )
}

/// The identifiers of the disc (the third element of the description,
/// inside the track) name the system and the application as
/// `PLAYSTATION`, and carry a volume exactly when one is given and a
/// publisher, last, exactly when one is given, each independently of the
/// other.
pub proof fn lemma_optional_identifiers(
    image_name: Seq<char>,
    app_id: Seq<char>,
    target_path: Seq<char>,
    volume: Option<Seq<char>>,
    publisher: Option<Seq<char>>,
    assets: Seq<AssetEntry>,
)
    ensures
        ({
            let ids = iso_project_nodes(image_name, app_id, target_path, volume, publisher, assets)[2];
            &&& ids.0 == 2
            &&& ids.1 == "identifiers"@
            &&& ids.2[0] == ("system"@, xml_escaped("PLAYSTATION"@))
            &&& ids.2[1] == ("application"@, xml_escaped("PLAYSTATION"@))
            &&& (volume matches Some(v) ==> ids.2.contains(("volume"@, xml_escaped(v))))
            &&& (publisher matches Some(p) ==> ids.2.last() == ("publisher"@, xml_escaped(p)))
            &&& (volume is None ==> forall|i: int| 0 <= i < ids.2.len() ==> (#[trigger] ids.2[i]).0 != "volume"@)
            &&& (publisher is None ==> forall|i: int| 0 <= i < ids.2.len() ==> (#[trigger] ids.2[i]).0 != "publisher"@)
        }),
{
    reveal_strlit("system");
    reveal_strlit("application");
    reveal_strlit("volume");
    reveal_strlit("publisher");
    let attrs = seq![("system"@, "PLAYSTATION"@), ("application"@, "PLAYSTATION"@)]
        + optional_identifiers(volume, publisher);
    let id_tree = tree("identifiers"@, attrs, Seq::empty());
    let dt_tree = tree(
        "directory_tree"@,
        Seq::empty(),
        tree("file"@, seq![("name"@, "SYSTEM.CNF"@), ("type"@, "data"@), ("source"@, "SYSTEM.CNF"@)], Seq::empty())
            + tree(
            "file"@,
            seq![("name"@, ascii_uppercase(app_id) + ".EXE"@), ("source"@, target_path), ("type"@, "data"@)],
            Seq::empty(),
        ) + listing_nodes(assets) + tree("dummy"@, seq![("sectors"@, "1024"@)], Seq::empty()),
    );
    let track = tree("track"@, seq![("type"@, "data"@)], id_tree + dt_tree);
    let nodes = iso_project_nodes(image_name, app_id, target_path, volume, publisher, assets);
    assert(track[1] == (id_tree[0].0 + 1, id_tree[0].1, id_tree[0].2, id_tree[0].3, id_tree[0].4));
    assert(nodes[2] == (track[1].0 + 1, track[1].1, track[1].2, track[1].3, track[1].4));
    let ids = nodes[2];
    assert(ids == (2int, "identifiers"@, leaf("identifiers"@, attrs).2, None::<bool>, None::<Seq<char>>));
    let stored = leaf("identifiers"@, attrs).2;
    assert(stored.len() == attrs.len());
    assert forall|i: int| 0 <= i < stored.len() implies (#[trigger] stored[i]).0 == attrs[i].0
        && stored[i].1 == xml_escaped(attrs[i].1) by {}
    let opt = optional_identifiers(volume, publisher);
    assert("system"@[0] == 's' && "volume"@[0] == 'v' && "publisher"@[0] == 'p' && "application"@[0] == 'a');
    assert("system"@ != "volume"@ && "application"@ != "volume"@);
    assert("system"@ != "publisher"@ && "application"@ != "publisher"@ && "volume"@ != "publisher"@);
    if let Some(v) = volume {
        assert(attrs[2] == ("volume"@, v));
        assert(stored[2] == ("volume"@, xml_escaped(v)));
    }
    if let Some(p) = publisher {
        assert(attrs[attrs.len() - 1] == ("publisher"@, p));
    }
    assert forall|i: int| 0 <= i < stored.len() implies
        (volume is None ==> (#[trigger] stored[i]).0 != "volume"@)
        && (publisher is None ==> stored[i].0 != "publisher"@) by {
        if i >= 2 {
            assert(attrs[i] == opt[i - 2]);
        } else if i == 0 {
            assert(attrs[i].0 == "system"@);
        } else {
            assert(attrs[i].0 == "application"@);
        }
    }
}

/// The layout of an image description: the project (named after the image,
/// `.bin` and `.cue`, no XA) holds one data track; its directory tree holds,
/// in this order, `SYSTEM.CNF`, the executable (the application name in
/// ASCII uppercase with `.EXE`, taken from `target_path`), the assets in
/// listing order one level below the tree, and 1024 padding sectors last.
pub proof fn lemma_description_layout(
    image_name: Seq<char>,
    app_id: Seq<char>,
    target_path: Seq<char>,
    volume: Option<Seq<char>>,
    publisher: Option<Seq<char>>,
    assets: Seq<AssetEntry>,
)
    ensures
        ({
            let nodes = iso_project_nodes(image_name, app_id, target_path, volume, publisher, assets);
            let listing = listing_nodes(assets);
            &&& nodes.len() == 7 + listing.len()
            &&& nodes[0] == (0int, "iso_project"@, seq![
                ("image_name"@, xml_escaped(image_name + ".bin"@)),
                ("cue_sheet"@, xml_escaped(image_name + ".cue"@)),
                ("no_xa"@, xml_escaped("0"@)),
            ], None::<bool>, None::<Seq<char>>)
            &&& nodes[1] == (1int, "track"@, seq![("type"@, xml_escaped("data"@))], None::<bool>, None::<Seq<char>>)
            &&& nodes[3] == (2int, "directory_tree"@, Seq::<(Seq<char>, Seq<char>)>::empty(), None::<bool>, None::<Seq<char>>)
            &&& nodes[4] == (3int, "file"@, seq![
                ("name"@, xml_escaped("SYSTEM.CNF"@)),
                ("type"@, xml_escaped("data"@)),
                ("source"@, xml_escaped("SYSTEM.CNF"@)),
            ], None::<bool>, None::<Seq<char>>)
            &&& nodes[5] == (3int, "file"@, seq![
                ("name"@, xml_escaped(ascii_uppercase(app_id) + ".EXE"@)),
                ("source"@, xml_escaped(target_path)),
                ("type"@, xml_escaped("data"@)),
            ], None::<bool>, None::<Seq<char>>)
            &&& nodes.subrange(6, 6 + listing.len() as int) == shift_nodes(listing, 3)
            &&& nodes.last() == (3int, "dummy"@, seq![("sectors"@, xml_escaped("1024"@))], None::<bool>, None::<Seq<char>>)
        }),
{
    let attrs = seq![("system"@, "PLAYSTATION"@), ("application"@, "PLAYSTATION"@)]
        + optional_identifiers(volume, publisher);
    let id_tree = tree("identifiers"@, attrs, Seq::empty());
    let cnf = tree("file"@, seq![("name"@, "SYSTEM.CNF"@), ("type"@, "data"@), ("source"@, "SYSTEM.CNF"@)], Seq::empty());
    let exe = tree(
        "file"@,
        seq![("name"@, ascii_uppercase(app_id) + ".EXE"@), ("source"@, target_path), ("type"@, "data"@)],
        Seq::empty(),
    );
    let listing = listing_nodes(assets);
    let dummy = tree("dummy"@, seq![("sectors"@, "1024"@)], Seq::empty());
    let dt_tree = tree("directory_tree"@, Seq::empty(), cnf + exe + listing + dummy);
    let track = tree("track"@, seq![("type"@, "data"@)], id_tree + dt_tree);
    let project_attrs = seq![("image_name"@, image_name + ".bin"@), ("cue_sheet"@, image_name + ".cue"@), ("no_xa"@, "0"@)];
    let nodes = iso_project_nodes(image_name, app_id, target_path, volume, publisher, assets);
    assert(nodes == seq![leaf("iso_project"@, project_attrs)] + shift_nodes(track, 1));
    assert(shift_nodes(Seq::<XmlNodeView>::empty(), 1) =~= Seq::<XmlNodeView>::empty());
    assert(cnf =~= seq![leaf("file"@, seq![("name"@, "SYSTEM.CNF"@), ("type"@, "data"@), ("source"@, "SYSTEM.CNF"@)])]);
    assert(exe =~= seq![leaf("file"@, seq![("name"@, ascii_uppercase(app_id) + ".EXE"@), ("source"@, target_path), ("type"@, "data"@)])]);
    assert(dummy =~= seq![leaf("dummy"@, seq![("sectors"@, "1024"@)])]);
    assert(id_tree =~= seq![leaf("identifiers"@, attrs)]);
    let inner = cnf + exe + listing + dummy;
    assert(inner.len() == 3 + listing.len());
    assert(dt_tree.len() == 4 + listing.len());
    assert(track.len() == 6 + listing.len());
    assert(nodes.len() == 7 + listing.len());
    assert(leaf("iso_project"@, project_attrs).2 =~= seq![
        ("image_name"@, xml_escaped(image_name + ".bin"@)),
        ("cue_sheet"@, xml_escaped(image_name + ".cue"@)),
        ("no_xa"@, xml_escaped("0"@)),
    ]);
    assert(nodes[0] == leaf("iso_project"@, project_attrs));
    assert(leaf("track"@, seq![("type"@, "data"@)]).2 =~= seq![("type"@, xml_escaped("data"@))]);
    assert(nodes[1] == (track[0].0 + 1, track[0].1, track[0].2, track[0].3, track[0].4));
    assert(leaf("directory_tree"@, Seq::empty()).2 =~= Seq::<(Seq<char>, Seq<char>)>::empty());
    assert(track[2] == (dt_tree[0].0 + 1, dt_tree[0].1, dt_tree[0].2, dt_tree[0].3, dt_tree[0].4));
    assert(nodes[3] == (track[2].0 + 1, track[2].1, track[2].2, track[2].3, track[2].4));
    assert(leaf("file"@, seq![("name"@, "SYSTEM.CNF"@), ("type"@, "data"@), ("source"@, "SYSTEM.CNF"@)]).2 =~= seq![
        ("name"@, xml_escaped("SYSTEM.CNF"@)),
        ("type"@, xml_escaped("data"@)),
        ("source"@, xml_escaped("SYSTEM.CNF"@)),
    ]);
    assert(dt_tree[1] == (inner[0].0 + 1, inner[0].1, inner[0].2, inner[0].3, inner[0].4));
    assert(track[3] == (dt_tree[1].0 + 1, dt_tree[1].1, dt_tree[1].2, dt_tree[1].3, dt_tree[1].4));
    assert(nodes[4] == (track[3].0 + 1, track[3].1, track[3].2, track[3].3, track[3].4));
    assert(leaf("file"@, seq![("name"@, ascii_uppercase(app_id) + ".EXE"@), ("source"@, target_path), ("type"@, "data"@)]).2 =~= seq![
        ("name"@, xml_escaped(ascii_uppercase(app_id) + ".EXE"@)),
        ("source"@, xml_escaped(target_path)),
        ("type"@, xml_escaped("data"@)),
    ]);
    assert(dt_tree[2] == (inner[1].0 + 1, inner[1].1, inner[1].2, inner[1].3, inner[1].4));
    assert(track[4] == (dt_tree[2].0 + 1, dt_tree[2].1, dt_tree[2].2, dt_tree[2].3, dt_tree[2].4));
    assert(nodes[5] == (track[4].0 + 1, track[4].1, track[4].2, track[4].3, track[4].4));
    assert forall|i: int| 0 <= i < listing.len() implies
        #[trigger] nodes.subrange(6, 6 + listing.len() as int)[i] == shift_nodes(listing, 3)[i] by {
        assert(inner[2 + i] == listing[i]);
        assert(dt_tree[3 + i] == (inner[2 + i].0 + 1, inner[2 + i].1, inner[2 + i].2, inner[2 + i].3, inner[2 + i].4));
        assert(track[5 + i] == (dt_tree[3 + i].0 + 1, dt_tree[3 + i].1, dt_tree[3 + i].2, dt_tree[3 + i].3, dt_tree[3 + i].4));
        assert(nodes[6 + i] == (track[5 + i].0 + 1, track[5 + i].1, track[5 + i].2, track[5 + i].3, track[5 + i].4));
    }
    assert(nodes.subrange(6, 6 + listing.len() as int) =~= shift_nodes(listing, 3));
    assert(leaf("dummy"@, seq![("sectors"@, "1024"@)]).2 =~= seq![("sectors"@, xml_escaped("1024"@))]);
    let k = listing.len() as int;
    assert(inner[2 + k] == dummy[0]);
    assert(dt_tree[3 + k] == (inner[2 + k].0 + 1, inner[2 + k].1, inner[2 + k].2, inner[2 + k].3, inner[2 + k].4));
    assert(track[5 + k] == (dt_tree[3 + k].0 + 1, dt_tree[3 + k].1, dt_tree[3 + k].2, dt_tree[3 + k].3, dt_tree[3 + k].4));
    assert(nodes[6 + k] == (track[5 + k].0 + 1, track[5 + k].1, track[5 + k].2, track[5 + k].3, track[5 + k].4));
}

/// The image description could not be written out.
#[derive(Debug)]
pub enum XmlError {
    Write,
}

proof fn lemma_shift_add(a: Seq<XmlNodeView>, b: Seq<XmlNodeView>, by: int)
    ensures
        shift_nodes(a + b, by) == shift_nodes(a, by) + shift_nodes(b, by),
{
    assert(shift_nodes(a + b, by) =~= shift_nodes(a, by) + shift_nodes(b, by));
}

/// Adds an attribute to the (childless, textless) element whose nodes are
/// `seq![leaf(name, attrs)] + rest`.
fn attribute(e: &mut XMLElement, name: &str, value: &str, Ghost(ename): Ghost<Seq<char>>, Ghost(attrs): Ghost<Seq<(Seq<char>, Seq<char>)>>, Ghost(rest): Ghost<Seq<XmlNodeView>>)
    requires
        element_nodes(*old(e)) == seq![leaf(ename, attrs)] + rest,
    ensures
        element_nodes(*final(e)) == seq![leaf(ename, attrs.push((name@, value@)))] + rest,
{
    add_attribute(e, name, value);
    proof {
        let pairs = attrs.map_values(|a: (Seq<char>, Seq<char>)| (a.0, xml_escaped(a.1)));
        let more = attrs.push((name@, value@)).map_values(|a: (Seq<char>, Seq<char>)| (a.0, xml_escaped(a.1)));
        assert(more =~= pairs.push((name@, xml_escaped(value@))));
        assert(element_nodes(*e) =~= seq![leaf(ename, attrs.push((name@, value@)))] + rest);
    }
}

fn attach(parent: &mut XMLElement, child: XMLElement, Ghost(child_nodes): Ghost<Seq<XmlNodeView>>)
    requires
        element_nodes(*old(parent)).len() >= 1,
        element_nodes(*old(parent))[0].4 is None,
        element_nodes(child) == child_nodes,
    ensures
        element_nodes(*final(parent)) == element_nodes(*old(parent)) + shift_nodes(child_nodes, 1),
        element_nodes(*final(parent))[0] == element_nodes(*old(parent))[0],
{
    let _ = add_child(parent, child);
}

/// Adds an element per entry of `entries`, in listing order, to `parent`:
/// a `dir` element holding its own listing for a directory, a `file`
/// element for a file.
fn traverse_assets(parent: &mut XMLElement, entries: &Vec<AssetEntry>)
    requires
        element_nodes(*old(parent)).len() >= 1,
        element_nodes(*old(parent))[0].4 is None,
    ensures
        element_nodes(*final(parent)) == element_nodes(*old(parent)) + shift_nodes(listing_nodes(entries@), 1),
        element_nodes(*final(parent))[0] == element_nodes(*old(parent))[0],
    decreases entries@,
{
    let order = sorted_listing(entries);
    let ghost spec_order = order@.map_values(|x: usize| x as int);
    let ghost start = element_nodes(*parent);
    let mut k: usize = 0;
    while k < order.len()
        invariant
            k <= order.len(),
            spec_order == order@.map_values(|x: usize| x as int),
            spec_order == listing_order(entries@),
            crate::assets::is_listing_order(entries@, spec_order),
            start.len() >= 1,
            start[0].4 is None,
            element_nodes(*parent) == start + shift_nodes(ordered_nodes(entries@, spec_order.take(k as int)), 1),
            element_nodes(*parent)[0] == start[0],
        decreases order.len() - k,
    {
        let idx = order[k];
        proof {
            assert(spec_order[k as int] == idx as int);
            assert(0 <= spec_order[k as int] < entries@.len());
        }
        let entry = &entries[idx];
        let upper = to_uppercase(entry.name.as_str());
        let ghost entry_tree = entry_nodes(*entry);
        let child = if entry.is_dir {
            let mut dir = new_element("dir");
            proof {
                assert(leaf("dir"@, Seq::empty()).2 =~= Seq::<(Seq<char>, Seq<char>)>::empty());
                assert(element_nodes(dir) =~= seq![leaf("dir"@, Seq::empty())] + Seq::<XmlNodeView>::empty());
            }
            attribute(&mut dir, "name", upper.as_str(), Ghost("dir"@), Ghost(Seq::empty()), Ghost(Seq::empty()));
            proof {
                assert(Seq::<(Seq<char>, Seq<char>)>::empty().push(("name"@, upper@)) =~= seq![("name"@, unicode_uppercase(entry.name@))]);
                assert(element_nodes(dir) =~= tree("dir"@, seq![("name"@, unicode_uppercase(entry.name@))], Seq::empty()));
            }
            traverse_assets(&mut dir, &entry.children);
            proof {
                assert(element_nodes(dir) =~= entry_tree);
            }
            dir
        } else {
            let mut file = new_element("file");
            let ghost e0 = Seq::<(Seq<char>, Seq<char>)>::empty();
            proof {
                assert(leaf("file"@, e0).2 =~= e0);
                assert(element_nodes(file) =~= seq![leaf("file"@, e0)] + Seq::<XmlNodeView>::empty());
            }
            attribute(&mut file, "name", upper.as_str(), Ghost("file"@), Ghost(e0), Ghost(Seq::empty()));
            attribute(&mut file, "type", "data", Ghost("file"@), Ghost(e0.push(("name"@, upper@))), Ghost(Seq::empty()));
            attribute(&mut file, "source", entry.source.as_str(), Ghost("file"@), Ghost(e0.push(("name"@, upper@)).push(("type"@, "data"@))), Ghost(Seq::empty()));
            proof {
                assert(e0.push(("name"@, upper@)).push(("type"@, "data"@)).push(("source"@, entry.source@))
                    =~= seq![("name"@, unicode_uppercase(entry.name@)), ("type"@, "data"@), ("source"@, entry.source@)]);
                assert(element_nodes(file) =~= entry_tree);
            }
            file
        };
        attach(parent, child, Ghost(entry_tree));
        proof {
            let taken = spec_order.take(k as int);
            let next = spec_order.take(k + 1);
            assert(next.drop_last() =~= taken);
            assert(next.last() == idx as int);
            assert(ordered_nodes(entries@, next) == ordered_nodes(entries@, taken) + entry_tree);
            lemma_shift_add(ordered_nodes(entries@, taken), entry_tree, 1);
            assert(element_nodes(*parent) =~= start + shift_nodes(ordered_nodes(entries@, next), 1));
        }
        k = k + 1;
    }
    proof {
        assert(spec_order.take(k as int) =~= spec_order);
    }
}

/// A borrowed optional string seen as characters.
pub open spec fn opt_ref_view(o: Option<&String>) -> Option<Seq<char>> {
    match o {
        Some(s) => Some(s@),
        None => None,
    }
}

/// A childless element with the given attributes (values as given).
fn leaf_element(name: &str, attrs: &Vec<(&str, &str)>) -> (e: XMLElement)
    ensures
        element_nodes(e) == tree(name@, attrs@.map_values(|a: (&str, &str)| (a.0@, a.1@)), Seq::empty()),
{
    let mut e = new_element(name);
    let ghost view = attrs@.map_values(|a: (&str, &str)| (a.0@, a.1@));
    proof {
        assert(leaf(name@, Seq::empty()).2 =~= Seq::<(Seq<char>, Seq<char>)>::empty());
        assert(element_nodes(e) =~= seq![leaf(name@, Seq::empty())] + Seq::<XmlNodeView>::empty());
    }
    let mut i: usize = 0;
    assert(view.take(0) =~= Seq::<(Seq<char>, Seq<char>)>::empty());
    while i < attrs.len()
        invariant
            i <= attrs.len(),
            view == attrs@.map_values(|a: (&str, &str)| (a.0@, a.1@)),
            element_nodes(e) == seq![leaf(name@, view.take(i as int))] + Seq::<XmlNodeView>::empty(),
        decreases attrs.len() - i,
    {
        let (k, v) = attrs[i];
        attribute(&mut e, k, v, Ghost(name@), Ghost(view.take(i as int)), Ghost(Seq::empty()));
        proof {
            assert(view.take(i as int).push((k@, v@)) =~= view.take(i + 1));
        }
        i = i + 1;
    }
    proof {
        assert(view.take(i as int) =~= view);
        assert(shift_nodes(Seq::<XmlNodeView>::empty(), 1) =~= Seq::<XmlNodeView>::empty());
        assert(element_nodes(e) =~= tree(name@, view, Seq::empty()));
    }
    e
}

/// The document describing the image `image_name`, whose executable
/// `target_path` appears on the disc as `<APPID>.EXE` (the application name
/// in ASCII uppercase), with the given assets and optional volume and
/// publisher identifiers: XML 1.1 in UTF-8 whose root is the element tree
/// [`iso_project_nodes`].
pub fn iso_project_document(
    assets: &Vec<AssetEntry>,
    image_name: &str,
    app_id: &str,
    target_path: &str,
    volume: Option<&String>,
    publisher: Option<&String>,
) -> (x: XML)
    ensures
        document_settings(x) == iso_settings(),
        document_root(x) == Some(iso_project_nodes(image_name@, app_id@, target_path@, opt_ref_view(volume), opt_ref_view(publisher), assets@)),
{
    let builder = new_builder();
    let builder = builder_version(builder, XmlVersion::V1_1);
    let builder = builder_encoding(builder, "UTF-8".to_owned());
    let mut xml = build_document(builder);

    let mut image_bin = image_name.to_owned();
    image_bin.append(".bin");
    let mut image_cue = image_name.to_owned();
    image_cue.append(".cue");
    let mut project_attrs: Vec<(&str, &str)> = Vec::new();
    project_attrs.push(("image_name", image_bin.as_str()));
    project_attrs.push(("cue_sheet", image_cue.as_str()));
    project_attrs.push(("no_xa", "0"));
    let mut iso_project = leaf_element("iso_project", &project_attrs);
    assert(project_attrs@.map_values(|a: (&str, &str)| (a.0@, a.1@)) =~= seq![("image_name"@, image_name@ + ".bin"@), ("cue_sheet"@, image_name@ + ".cue"@), ("no_xa"@, "0"@)]);

    let mut track_attrs: Vec<(&str, &str)> = Vec::new();
    track_attrs.push(("type", "data"));
    let mut track = leaf_element("track", &track_attrs);
    assert(track_attrs@.map_values(|a: (&str, &str)| (a.0@, a.1@)) =~= seq![("type"@, "data"@)]);

    let mut id_attrs: Vec<(&str, &str)> = Vec::new();
    id_attrs.push(("system", "PLAYSTATION"));
    id_attrs.push(("application", "PLAYSTATION"));
    if let Some(volume_name) = volume {
        id_attrs.push(("volume", volume_name.as_str()));
    }
    if let Some(publisher_name) = publisher {
        id_attrs.push(("publisher", publisher_name.as_str()));
    }
    let identifiers = leaf_element("identifiers", &id_attrs);
    proof {
        assert(id_attrs@.map_values(|a: (&str, &str)| (a.0@, a.1@)) =~= seq![("system"@, "PLAYSTATION"@), ("application"@, "PLAYSTATION"@)]
            + optional_identifiers(opt_ref_view(volume), opt_ref_view(publisher)));
    }

    let no_attrs: Vec<(&str, &str)> = Vec::new();
    let mut directory_tree = leaf_element("directory_tree", &no_attrs);
    assert(no_attrs@.map_values(|a: (&str, &str)| (a.0@, a.1@)) =~= Seq::<(Seq<char>, Seq<char>)>::empty());
    let ghost tree_start = element_nodes(directory_tree);

    let mut cnf_attrs: Vec<(&str, &str)> = Vec::new();
    cnf_attrs.push(("name", "SYSTEM.CNF"));
    cnf_attrs.push(("type", "data"));
    cnf_attrs.push(("source", "SYSTEM.CNF"));
    let system_cnf = leaf_element("file", &cnf_attrs);
    let ghost cnf_nodes = element_nodes(system_cnf);
    assert(cnf_attrs@.map_values(|a: (&str, &str)| (a.0@, a.1@)) =~= seq![("name"@, "SYSTEM.CNF"@), ("type"@, "data"@), ("source"@, "SYSTEM.CNF"@)]);
    attach(&mut directory_tree, system_cnf, Ghost(cnf_nodes));

    let mut exe_name = to_ascii_uppercase(app_id);
    exe_name.append(".EXE");
    let mut exe_attrs: Vec<(&str, &str)> = Vec::new();
    exe_attrs.push(("name", exe_name.as_str()));
    exe_attrs.push(("source", target_path));
    exe_attrs.push(("type", "data"));
    let exec_file = leaf_element("file", &exe_attrs);
    let ghost exe_nodes = element_nodes(exec_file);
    assert(exe_attrs@.map_values(|a: (&str, &str)| (a.0@, a.1@)) =~= seq![("name"@, ascii_uppercase(app_id@) + ".EXE"@), ("source"@, target_path@), ("type"@, "data"@)]);
    attach(&mut directory_tree, exec_file, Ghost(exe_nodes));

    traverse_assets(&mut directory_tree, assets);

    let mut dummy_attrs: Vec<(&str, &str)> = Vec::new();
    dummy_attrs.push(("sectors", "1024"));
    let dummy = leaf_element("dummy", &dummy_attrs);
    let ghost dummy_nodes = element_nodes(dummy);
    assert(dummy_attrs@.map_values(|a: (&str, &str)| (a.0@, a.1@)) =~= seq![("sectors"@, "1024"@)]);
    attach(&mut directory_tree, dummy, Ghost(dummy_nodes));
    proof {
        let listing = listing_nodes(assets@);
        lemma_shift_add(cnf_nodes, exe_nodes, 1);
        lemma_shift_add(cnf_nodes + exe_nodes, listing, 1);
        lemma_shift_add(cnf_nodes + exe_nodes + listing, dummy_nodes, 1);
        assert(shift_nodes(Seq::<XmlNodeView>::empty(), 1) =~= Seq::<XmlNodeView>::empty());
        assert(tree_start =~= seq![leaf("directory_tree"@, Seq::empty())]);
        assert(element_nodes(directory_tree) =~= tree("directory_tree"@, Seq::empty(), cnf_nodes + exe_nodes + listing + dummy_nodes));
    }
    let ghost id_nodes = element_nodes(identifiers);
    let ghost dt_nodes = element_nodes(directory_tree);
    let ghost track_start = element_nodes(track);
    attach(&mut track, identifiers, Ghost(id_nodes));
    attach(&mut track, directory_tree, Ghost(dt_nodes));
    proof {
        lemma_shift_add(id_nodes, dt_nodes, 1);
        assert(shift_nodes(Seq::<XmlNodeView>::empty(), 1) =~= Seq::<XmlNodeView>::empty());
        assert(track_start =~= seq![leaf("track"@, seq![("type"@, "data"@)])]);
        assert(element_nodes(track) =~= tree("track"@, seq![("type"@, "data"@)], id_nodes + dt_nodes));
    }
    let ghost track_nodes = element_nodes(track);
    let ghost project_start = element_nodes(iso_project);
    attach(&mut iso_project, track, Ghost(track_nodes));
    proof {
        assert(shift_nodes(Seq::<XmlNodeView>::empty(), 1) =~= Seq::<XmlNodeView>::empty());
        assert(project_start =~= seq![leaf("iso_project"@, seq![("image_name"@, image_name@ + ".bin"@), ("cue_sheet"@, image_name@ + ".cue"@), ("no_xa"@, "0"@)])]);
        assert(element_nodes(iso_project) =~= iso_project_nodes(image_name@, app_id@, target_path@, opt_ref_view(volume), opt_ref_view(publisher), assets@));
    }
    set_root_element(&mut xml, iso_project);
    xml
}

/// What writing a document gave: the bytes written when the write
/// succeeded, a write error otherwise.
pub fn written_document(outcome: Result<(), XMLError>, out: Vec<u8>) -> (r: Result<Vec<u8>, XmlError>)
    ensures
        outcome is Ok ==> (r matches Ok(bytes) && bytes@ == out@),
        outcome is Err ==> r is Err,
{
    match outcome {
        Ok(()) => Ok(out),
        Err(_) => Err(XmlError::Write),
    }
}

/// The image description for the image `image_name` (see
/// [`iso_project_document`]), as the text that `xml-builder` writes for it.
pub fn generate_xml(
    assets: &Vec<AssetEntry>,
    image_name: &str,
    app_id: &str,
    target_path: &str,
    volume: Option<&String>,
    publisher: Option<&String>,
) -> (r: Result<Vec<u8>, XmlError>)
    ensures
        r matches Ok(bytes) && bytes@ == xml_document_text(
            iso_settings(),
            Some(iso_project_nodes(image_name@, app_id@, target_path@, opt_ref_view(volume), opt_ref_view(publisher), assets@)),
        ),
{
    let xml = iso_project_document(assets, image_name, app_id, target_path, volume, publisher);
    let mut out: Vec<u8> = Vec::new();
    let outcome = generate_document(xml, &mut out);
    assert(out@ =~= xml_document_text(
        iso_settings(),
        Some(iso_project_nodes(image_name@, app_id@, target_path@, opt_ref_view(volume), opt_ref_view(publisher), assets@)),
    ));
    written_document(outcome, out)
}

} // verus!
