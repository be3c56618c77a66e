//! The `xml-builder` crate as this library uses it: its element, builder and
//! document types, a model of what each holds, and the calls that build a
//! document and write it out.
//!
//! An element is modelled by its nodes in document order. Each node is
//! `(depth, name, attributes, attribute sorting, text)`: its depth below the
//! element, its name, its attributes as stored (values escaped), its own
//! attribute-sorting choice, and its text when it holds text. Document
//! settings are `(version 1.1, encoding, standalone, indent, sort attributes,
//! break lines, expand empty tags)`.

use vstd::prelude::*;
use xml_builder::{XMLBuilder, XMLElement, XMLError, XMLVersion, XML};

verus! {

#[verifier::external_type_specification]
#[verifier::external_body]
pub struct ExXMLElement(XMLElement);

#[verifier::external_type_specification]
#[verifier::external_body]
pub struct ExXMLBuilder(XMLBuilder);

#[verifier::external_type_specification]
#[verifier::external_body]
pub struct ExXML(XML);

#[verifier::external_type_specification]
#[verifier::external_body]
pub struct ExXMLError(XMLError);

/// One node of an element tree: depth, name, attributes, attribute
/// sorting, text.
pub type XmlNodeView = (int, Seq<char>, Seq<(Seq<char>, Seq<char>)>, Option<bool>, Option<Seq<char>>);

/// Document settings: version 1.1 (else 1.0), encoding, standalone,
/// indent, sort attributes, break lines, expand empty tags.
pub type XmlSettings = (bool, Option<Seq<char>>, Option<bool>, bool, bool, bool, bool);

/// The XML versions a document can declare.
pub enum XmlVersion {
    V1_0,
    V1_1,
}

/// The nodes of an element in document order, the element itself first.
pub uninterp spec fn element_nodes(e: XMLElement) -> Seq<XmlNodeView>;

/// The settings a builder holds.
pub uninterp spec fn builder_settings(b: XMLBuilder) -> XmlSettings;

/// The settings of a document.
pub uninterp spec fn document_settings(x: XML) -> XmlSettings;

/// The root element of a document, by its nodes, when it has one.
pub uninterp spec fn document_root(x: XML) -> Option<Seq<XmlNodeView>>;

/// The text that `xml-builder` writes for a document with these settings
/// and this root.
pub uninterp spec fn xml_document_text(settings: XmlSettings, root: Option<Seq<XmlNodeView>>) -> Seq<u8>;

/// A character as it is stored in an attribute value: `&`, `"`, `'`, `<`
/// and `>` become entity references.
pub open spec fn escape_char(c: char) -> Seq<char> {
    if c == '&' {
        "&amp;"@
    } else if c == '"' {
        "&quot;"@
    } else if c == '\'' {
        "&apos;"@
    } else if c == '<' {
        "&lt;"@
    } else if c == '>' {
        "&gt;"@
    } else {
        seq![c]
    }
}

/// An attribute value as it is stored: every character escaped.
pub open spec fn xml_escaped(s: Seq<char>) -> Seq<char> {
    s.map_values(|c: char| escape_char(c)).flatten()
}

/// Nodes moved `by` levels deeper.
pub open spec fn shift_nodes(nodes: Seq<XmlNodeView>, by: int) -> Seq<XmlNodeView> {
    nodes.map_values(|n: XmlNodeView| (n.0 + by, n.1, n.2, n.3, n.4))
}

/// `XMLElement::new`: an element of that name with no attributes, no
/// attribute-sorting choice and no content.
#[verifier::external_body]
pub(crate) fn new_element(name: &str) -> (e: XMLElement)
    ensures
        element_nodes(e) == seq![(0int, name@, Seq::<(Seq<char>, Seq<char>)>::empty(), None::<bool>, None::<Seq<char>>)],
{
    XMLElement::new(name)
}

/// `XMLElement::add_attribute`: the attribute, its value escaped, is added
/// after the element's other attributes; nothing else changes.
#[verifier::external_body]
pub(crate) fn add_attribute(e: &mut XMLElement, name: &str, value: &str)
    requires
        element_nodes(*old(e)).len() >= 1,
    ensures
        element_nodes(*final(e)) == element_nodes(*old(e)).update(0, (
            element_nodes(*old(e))[0].0,
            element_nodes(*old(e))[0].1,
            element_nodes(*old(e))[0].2.push((name@, xml_escaped(value@))),
            element_nodes(*old(e))[0].3,
            element_nodes(*old(e))[0].4,
        )),
{
    e.add_attribute(name, value)
}

/// `XMLElement::add_child`: an element without text gets the child after
/// its other children; one with text refuses it and stays as it was.
#[verifier::external_body]
pub(crate) fn add_child(e: &mut XMLElement, child: XMLElement) -> (r: Result<(), XMLError>)
    requires
        element_nodes(*old(e)).len() >= 1,
    ensures
        element_nodes(*old(e))[0].4 is None ==> r is Ok && element_nodes(*final(e))
            == element_nodes(*old(e)) + shift_nodes(element_nodes(child), 1),
        element_nodes(*old(e))[0].4 is Some ==> r is Err && element_nodes(*final(e))
            == element_nodes(*old(e)),
{
    e.add_child(child)
}

/// `XMLBuilder::new`: version 1.0, no encoding, no standalone declaration,
/// indented, attributes unsorted, lines broken, empty tags not expanded.
#[verifier::external_body]
pub(crate) fn new_builder() -> (b: XMLBuilder)
    ensures
        builder_settings(b) == (false, None::<Seq<char>>, None::<bool>, true, false, true, false),
{
    XMLBuilder::new()
}

/// `XMLBuilder::version`: the version is set, nothing else changes.
#[verifier::external_body]
pub(crate) fn builder_version(b: XMLBuilder, version: XmlVersion) -> (r: XMLBuilder)
    ensures
        builder_settings(r) == (
            version is V1_1,
            builder_settings(b).1,
            builder_settings(b).2,
            builder_settings(b).3,
            builder_settings(b).4,
            builder_settings(b).5,
            builder_settings(b).6,
        ),
{
    b.version(match version {
        XmlVersion::V1_0 => XMLVersion::XML1_0,
        XmlVersion::V1_1 => XMLVersion::XML1_1,
    })
}

/// `XMLBuilder::encoding`: the encoding is set, nothing else changes.
#[verifier::external_body]
pub(crate) fn builder_encoding(b: XMLBuilder, encoding: String) -> (r: XMLBuilder)
    ensures
        builder_settings(r) == (
            builder_settings(b).0,
            Some(encoding@),
            builder_settings(b).2,
            builder_settings(b).3,
            builder_settings(b).4,
            builder_settings(b).5,
            builder_settings(b).6,
        ),
{
    b.encoding(encoding)
}

/// `XMLBuilder::build`: a document with the builder's settings and no root.
#[verifier::external_body]
pub(crate) fn build_document(b: XMLBuilder) -> (x: XML)
    ensures
        document_settings(x) == builder_settings(b),
        document_root(x) is None,
{
    b.build()
}

/// `XML::set_root_element`: the element becomes the root; the settings stay.
#[verifier::external_body]
pub(crate) fn set_root_element(x: &mut XML, element: XMLElement)
    ensures
        document_settings(*final(x)) == document_settings(*old(x)),
        document_root(*final(x)) == Some(element_nodes(element)),
{
    x.set_root_element(element)
}

/// `XML::generate` into a byte vector: it fails only when its writer does,
/// and writing into a vector appends and never fails, so it succeeds with
/// the document's text appended to the vector.
#[verifier::external_body]
pub(crate) fn generate_document(x: XML, out: &mut Vec<u8>) -> (r: Result<(), XMLError>)
    ensures
        r is Ok,
        final(out)@ == old(out)@ + xml_document_text(document_settings(x), document_root(x)),
{
    x.generate(out)
}

} // verus!
