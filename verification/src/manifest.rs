//! The fields of a manifest: what the root element `manifest` and its
//! children `uses-sdk` and `application` declare in a decoded document.
//!
//! Each field is looked up by element name and attribute name. A field whose
//! element or attribute is missing, or whose value is of another type than
//! the field's, is `None`; nothing here fails.

use vstd::prelude::*;
use crate::axml::{AttributeValue, XmlAttribute, XmlChunk, XmlChunkView, XmlDocument, XmlDocumentView,
    chunk_views};
use crate::pool::text_views;
use crate::text::text_view;

verus! {

/// What a manifest declares of its application.
#[derive(Clone, Debug)]
pub struct ManifestFields {
    pub package: Option<String>,
    pub version_code: Option<u32>,
    pub version_name: Option<String>,
    pub compile_sdk_version: Option<u32>,
    pub compile_sdk_version_codename: Option<u32>,
    pub platform_build_version_code: Option<u32>,
    pub platform_build_version_name: Option<u32>,
    pub min_sdk_version: Option<u32>,
    pub target_sdk_version: Option<u32>,
    pub max_sdk_version: Option<u32>,
    pub icon: Option<String>,
    pub label: Option<String>,
}

/// The mathematical content of `ManifestFields`.
pub struct ManifestFieldsView {
    pub package: Option<Seq<char>>,
    pub version_code: Option<u32>,
    pub version_name: Option<Seq<char>>,
    pub compile_sdk_version: Option<u32>,
    pub compile_sdk_version_codename: Option<u32>,
    pub platform_build_version_code: Option<u32>,
    pub platform_build_version_name: Option<u32>,
    pub min_sdk_version: Option<u32>,
    pub target_sdk_version: Option<u32>,
    pub max_sdk_version: Option<u32>,
    pub icon: Option<Seq<char>>,
    pub label: Option<Seq<char>>,
}

impl View for ManifestFields {
    type V = ManifestFieldsView;

    open spec fn view(&self) -> ManifestFieldsView {
        ManifestFieldsView {
            package: text_view(self.package),
            version_code: self.version_code,
            version_name: text_view(self.version_name),
            compile_sdk_version: self.compile_sdk_version,
            compile_sdk_version_codename: self.compile_sdk_version_codename,
            platform_build_version_code: self.platform_build_version_code,
            platform_build_version_name: self.platform_build_version_name,
            min_sdk_version: self.min_sdk_version,
            target_sdk_version: self.target_sdk_version,
            max_sdk_version: self.max_sdk_version,
            icon: text_view(self.icon),
            label: text_view(self.label),
        }
    }
}

/// Whether the string at `index` of the pool is the text `name`.
pub open spec fn named(strings: Seq<Option<Seq<char>>>, index: u32, name: Seq<char>) -> bool {
    index < strings.len() && strings[index as int] == Some(name)
}

/// The root element, if it is called `name`: the attributes of the first
/// element that the document opens, and the chunks after its opening.
pub open spec fn root_element(
    chunks: Seq<XmlChunkView>,
    strings: Seq<Option<Seq<char>>>,
    name: Seq<char>,
) -> Option<(Seq<XmlAttribute>, Seq<XmlChunkView>)>
    decreases chunks.len(),
{
    if chunks.len() == 0 {
        None
    } else {
        match chunks[0] {
            XmlChunkView::StartElement { namespace, name: index, attributes } => if named(
                strings,
                index,
                name,
            ) {
                Some((attributes, chunks.drop_first()))
            } else {
                None
            },
            _ => root_element(chunks.drop_first(), strings, name),
        }
    }
}

/// The attributes of the first child called `name` of an element whose
/// content begins with `chunks`. `depth` counts the elements that are open
/// inside that element: a child is an element opened at depth zero, and the
/// element's content ends where an element is closed at depth zero.
pub open spec fn find_child(
    chunks: Seq<XmlChunkView>,
    strings: Seq<Option<Seq<char>>>,
    name: Seq<char>,
    depth: nat,
) -> Option<Seq<XmlAttribute>>
    decreases chunks.len(),
{
    if chunks.len() == 0 {
        None
    } else {
        match chunks[0] {
            XmlChunkView::StartElement { namespace, name: index, attributes } => if depth == 0
                && named(strings, index, name) {
                Some(attributes)
            } else {
                find_child(chunks.drop_first(), strings, name, depth + 1)
            },
            XmlChunkView::EndElement { namespace, name: index } => if depth == 0 {
                None
            } else {
                find_child(chunks.drop_first(), strings, name, (depth - 1) as nat)
            },
            _ => find_child(chunks.drop_first(), strings, name, depth),
        }
    }
}

/// The attributes of the root element, if it is called `name`.
pub open spec fn root_attributes(
    chunks: Seq<XmlChunkView>,
    strings: Seq<Option<Seq<char>>>,
    name: Seq<char>,
) -> Option<Seq<XmlAttribute>> {
    match root_element(chunks, strings, name) {
        Some((attributes, _)) => Some(attributes),
        None => None,
    }
}

/// The attributes of the first child called `child` of the root element, if
/// the root element is called `root`.
pub open spec fn child_attributes(
    chunks: Seq<XmlChunkView>,
    strings: Seq<Option<Seq<char>>>,
    root: Seq<char>,
    child: Seq<char>,
) -> Option<Seq<XmlAttribute>> {
    match root_element(chunks, strings, root) {
        Some((_, inside)) => find_child(inside, strings, child, 0),
        None => None,
    }
}

/// The value of the first attribute called `name`.
pub open spec fn find_attribute(
    attributes: Seq<XmlAttribute>,
    strings: Seq<Option<Seq<char>>>,
    name: Seq<char>,
) -> Option<AttributeValue>
    decreases attributes.len(),
{
    if attributes.len() == 0 {
        None
    } else if named(strings, attributes[0].name, name) {
        Some(attributes[0].value)
    } else {
        find_attribute(attributes.drop_first(), strings, name)
    }
}

/// The integer that a value holds, if it is an integer.
pub open spec fn integer_of(value: Option<AttributeValue>) -> Option<u32> {
    match value {
        Some(AttributeValue::Integer(v)) => Some(v),
        _ => None,
    }
}

/// The text that a value refers to, if it is a string of well-formed text.
pub open spec fn text_of(value: Option<AttributeValue>, strings: Seq<Option<Seq<char>>>) -> Option<
    Seq<char>,
> {
    match value {
        Some(AttributeValue::Text(index)) => if index < strings.len() {
            strings[index as int]
        } else {
            None
        },
        _ => None,
    }
}

/// The integer attribute `name` of an element that may be missing.
pub open spec fn integer_in(
    element: Option<Seq<XmlAttribute>>,
    strings: Seq<Option<Seq<char>>>,
    name: Seq<char>,
) -> Option<u32> {
    match element {
        None => None,
        Some(attributes) => integer_of(find_attribute(attributes, strings, name)),
    }
}

/// The text attribute `name` of an element that may be missing.
pub open spec fn text_in(
    element: Option<Seq<XmlAttribute>>,
    strings: Seq<Option<Seq<char>>>,
    name: Seq<char>,
) -> Option<Seq<char>> {
    match element {
        None => None,
        Some(attributes) => text_of(find_attribute(attributes, strings, name), strings),
    }
}

/// The fields that a document declares.
pub open spec fn manifest_fields(doc: XmlDocumentView) -> ManifestFieldsView {
    let s = doc.strings;
    let manifest = root_attributes(doc.chunks, s, "manifest"@);
    let uses_sdk = child_attributes(doc.chunks, s, "manifest"@, "uses-sdk"@);
    let application = child_attributes(doc.chunks, s, "manifest"@, "application"@);
    ManifestFieldsView {
        package: text_in(manifest, s, "package"@),
        version_code: integer_in(manifest, s, "versionCode"@),
        version_name: text_in(manifest, s, "versionName"@),
        compile_sdk_version: integer_in(manifest, s, "compileSdkVersion"@),
        compile_sdk_version_codename: integer_in(manifest, s, "compileSdkVersionCodename"@),
        platform_build_version_code: integer_in(manifest, s, "platformBuildVersionCode"@),
        platform_build_version_name: integer_in(manifest, s, "platformBuildVersionName"@),
        min_sdk_version: integer_in(uses_sdk, s, "minSdkVersion"@),
        target_sdk_version: integer_in(uses_sdk, s, "targetSdkVersion"@),
        max_sdk_version: integer_in(uses_sdk, s, "maxSdkVersion"@),
        icon: text_in(application, s, "icon"@),
        label: text_in(application, s, "label"@),
    }
}

/// The attributes of an element that may be missing.
pub open spec fn attributes_view(element: Option<&Vec<XmlAttribute>>) -> Option<Seq<XmlAttribute>> {
    match element {
        None => None,
        Some(attributes) => Some(attributes@),
    }
}

/// Decides whether the string at `index` of the pool is the text `name`.
fn is_named(strings: &Vec<Option<String>>, index: u32, name: &String) -> (r: bool)
    ensures
        r == named(text_views(strings@), index, name@),
{
    if index as u64 >= strings.len() as u64 {
        return false;
    }
    match &strings[index as usize] {
        None => false,
        Some(s) => *s == *name,
    }
}

/// Finds the root element, if it is called `name`: its attributes and the
/// position of the chunk after its opening.
fn find_root<'a>(doc: &'a XmlDocument, name: &str) -> (r: Option<(&'a Vec<XmlAttribute>, usize)>)
    ensures
        r matches Some(found) ==> found.1 <= doc.chunks.len() && root_element(
            doc@.chunks,
            doc@.strings,
            name@,
        ) == Some((found.0@, doc@.chunks.skip(found.1 as int))),
        r is None ==> root_element(doc@.chunks, doc@.strings, name@) is None,
{
    let target = String::from_str(name);
    let ghost all = chunk_views(doc.chunks@);
    let ghost strings = text_views(doc.strings@);
    let mut i: usize = 0;
    assert(all.skip(0) =~= all);
    while i < doc.chunks.len()
        invariant
            all == chunk_views(doc.chunks@),
            strings == text_views(doc.strings@),
            target@ == name@,
            i <= doc.chunks.len(),
            root_element(all, strings, name@) == root_element(all.skip(i as int), strings, name@),
        decreases doc.chunks.len() - i,
    {
        assert(all.skip(i as int)[0] == doc.chunks@[i as int]@);
        assert(all.skip(i as int).drop_first() =~= all.skip(i + 1));
        match &doc.chunks[i] {
            XmlChunk::StartElement { namespace, name: index, attributes } => {
                if is_named(&doc.strings, *index, &target) {
                    return Some((attributes, i + 1));
                } else {
                    return None;
                }
            },
            _ => {},
        }
        i = i + 1;
    }
    None
}

/// Finds the attributes of the first child called `name` of the element
/// whose content begins at chunk `start`.
fn find_child_from<'a>(doc: &'a XmlDocument, start: usize, name: &str) -> (r: Option<
    &'a Vec<XmlAttribute>,
>)
    requires
        start <= doc.chunks.len(),
    ensures
        attributes_view(r) == find_child(doc@.chunks.skip(start as int), doc@.strings, name@, 0),
{
    let target = String::from_str(name);
    let ghost all = chunk_views(doc.chunks@);
    let ghost strings = text_views(doc.strings@);
    let mut i: usize = start;
    let mut depth: usize = 0;
    while i < doc.chunks.len()
        invariant
            all == chunk_views(doc.chunks@),
            strings == text_views(doc.strings@),
            target@ == name@,
            start <= i <= doc.chunks.len(),
            depth <= i - start,
            find_child(all.skip(start as int), strings, name@, 0) == find_child(
                all.skip(i as int),
                strings,
                name@,
                depth as nat,
            ),
        decreases doc.chunks.len() - i,
    {
        assert(all.skip(i as int)[0] == doc.chunks@[i as int]@);
        assert(all.skip(i as int).drop_first() =~= all.skip(i + 1));
        match &doc.chunks[i] {
            XmlChunk::StartElement { namespace, name: index, attributes } => {
                if depth == 0 && is_named(&doc.strings, *index, &target) {
                    return Some(attributes);
                }
                depth = depth + 1;
            },
            XmlChunk::EndElement { namespace, name: index } => {
                if depth == 0 {
                    return None;
                }
                depth = depth - 1;
            },
            _ => {},
        }
        i = i + 1;
    }
    None
}

/// Finds the value of the first attribute called `name`.
fn lookup_attribute(
    element: Option<&Vec<XmlAttribute>>,
    strings: &Vec<Option<String>>,
    name: &str,
) -> (r: Option<AttributeValue>)
    ensures
        r == (match element {
            None => None,
            Some(attributes) => find_attribute(attributes@, text_views(strings@), name@),
        }),
{
    let attributes = match element {
        None => { return None; },
        Some(attributes) => attributes,
    };
    let target = String::from_str(name);
    let ghost all = attributes@;
    let mut i: usize = 0;
    assert(all.skip(0) =~= all);
    while i < attributes.len()
        invariant
            all == attributes@,
            element == Some(attributes),
            target@ == name@,
            i <= attributes.len(),
            find_attribute(all, text_views(strings@), name@) == find_attribute(
                all.skip(i as int),
                text_views(strings@),
                name@,
            ),
        decreases attributes.len() - i,
    {
        assert(all.skip(i as int)[0] == all[i as int]);
        assert(all.skip(i as int).drop_first() =~= all.skip(i + 1));
        if is_named(strings, attributes[i].name, &target) {
            return Some(attributes[i].value);
        }
        i = i + 1;
    }
    None
}

/// Reads the integer attribute `name` of an element that may be missing.
fn integer_attribute(
    element: Option<&Vec<XmlAttribute>>,
    strings: &Vec<Option<String>>,
    name: &str,
) -> (r: Option<u32>)
    ensures
        r == integer_in(attributes_view(element), text_views(strings@), name@),
{
    match lookup_attribute(element, strings, name) {
        Some(AttributeValue::Integer(v)) => Some(v),
        _ => None,
    }
}

/// Reads the text attribute `name` of an element that may be missing.
fn text_attribute(
    element: Option<&Vec<XmlAttribute>>,
    strings: &Vec<Option<String>>,
    name: &str,
) -> (r: Option<String>)
    ensures
        text_view(r) == text_in(attributes_view(element), text_views(strings@), name@),
{
    match lookup_attribute(element, strings, name) {
        Some(AttributeValue::Text(index)) => {
            if (index as u64) < strings.len() as u64 {
                match &strings[index as usize] {
                    None => None,
                    Some(s) => Some(s.clone()),
                }
            } else {
                None
            }
        },
        _ => None,
    }
}

/// Reads the fields that a decoded document declares.
pub fn project_manifest(doc: &XmlDocument) -> (r: ManifestFields)
    ensures
        r@ == manifest_fields(doc@),
{
    let s = &doc.strings;
    let (manifest, uses_sdk, application) = match find_root(doc, "manifest") {
        Some((attributes, inside)) => (
            Some(attributes),
            find_child_from(doc, inside, "uses-sdk"),
            find_child_from(doc, inside, "application"),
        ),
        None => (None, None, None),
    };
    ManifestFields {
        package: text_attribute(manifest, s, "package"),
        version_code: integer_attribute(manifest, s, "versionCode"),
        version_name: text_attribute(manifest, s, "versionName"),
        compile_sdk_version: integer_attribute(manifest, s, "compileSdkVersion"),
        compile_sdk_version_codename: integer_attribute(manifest, s, "compileSdkVersionCodename"),
        platform_build_version_code: integer_attribute(manifest, s, "platformBuildVersionCode"),
        platform_build_version_name: integer_attribute(manifest, s, "platformBuildVersionName"),
        min_sdk_version: integer_attribute(uses_sdk, s, "minSdkVersion"),
        target_sdk_version: integer_attribute(uses_sdk, s, "targetSdkVersion"),
        max_sdk_version: integer_attribute(uses_sdk, s, "maxSdkVersion"),
        icon: text_attribute(application, s, "icon"),
        label: text_attribute(application, s, "label"),
    }
}

} // verus!
