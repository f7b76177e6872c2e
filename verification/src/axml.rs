//! The binary XML document: a header, a string pool, and a flat run of
//! chunks that open and close namespaces and elements.
//!
//! Strings are never stored inline. Every name and every text value is an
//! index into the pool, and the decoder checks each index against the pool.

use vstd::prelude::*;
use crate::bytes::{spec_u16_le, spec_u32_le, u16_le, u32_le};
use crate::error::ApkError;
use crate::pool::{
    chunk_fits, chunk_header_size, chunk_kind, chunk_size, pool_strings, read_pool, text_views,
};
use crate::sequence::{followed_by, lemma_followed_by_ends, lemma_followed_by_step};

verus! {

/// The chunk type of the document itself.
pub const XML_DOCUMENT: u16 = 0x0003;

/// The chunk type of a string pool.
pub const STRING_POOL: u16 = 0x0001;

/// The chunk type of a resource map.
pub const RESOURCE_MAP: u16 = 0x0180;

/// The chunk type that opens a namespace.
pub const START_NAMESPACE: u16 = 0x0100;

/// The chunk type that closes a namespace.
pub const END_NAMESPACE: u16 = 0x0101;

/// The chunk type that opens an element.
pub const START_ELEMENT: u16 = 0x0102;

/// The chunk type that closes an element.
pub const END_ELEMENT: u16 = 0x0103;

/// The chunk type of character data.
pub const CDATA: u16 = 0x0104;

/// The index that stands for "no string".
pub const NO_INDEX: u32 = 0xFFFF_FFFF;

/// The header of a chunk inside the tree: the chunk header, a line number
/// and a comment index.
pub const NODE_HEADER_SIZE: usize = 16;

/// The part of an attribute record that is read.
pub const ATTRIBUTE_SIZE: usize = 20;

/// The value type of a resource reference.
pub const TYPE_REFERENCE: u8 = 0x01;

/// The value type of a string.
pub const TYPE_STRING: u8 = 0x03;

/// The value type of a decimal integer.
pub const TYPE_INT_DEC: u8 = 0x10;

/// The value type of a hexadecimal integer.
pub const TYPE_INT_HEX: u8 = 0x11;

/// The value type of a boolean.
pub const TYPE_BOOLEAN: u8 = 0x12;

/// The typed value of an attribute.
#[derive(Clone, Copy, Debug, PartialEq, Eq, Structural)]
pub enum AttributeValue {
    /// The string at this index of the pool.
    Text(u32),
    /// An integer, written in decimal or hexadecimal.
    Integer(u32),
    Boolean(bool),
    /// A reference to a resource, which this crate does not resolve.
    Reference(u32),
    /// A value of another type, with its type byte and payload.
    Other(u8, u32),
}

/// One attribute of an element. `namespace` and `raw` are pool indices or
/// `NO_INDEX`; `name` is a pool index.
#[derive(Clone, Copy, Debug, PartialEq, Eq, Structural)]
pub struct XmlAttribute {
    pub namespace: u32,
    pub name: u32,
    pub raw: u32,
    pub value: AttributeValue,
}

/// One chunk of the document after its string pool.
#[derive(Clone, Debug)]
pub enum XmlChunk {
    ResourceMap(Vec<u32>),
    StartNamespace { prefix: u32, uri: u32 },
    EndNamespace { prefix: u32, uri: u32 },
    StartElement { namespace: u32, name: u32, attributes: Vec<XmlAttribute> },
    EndElement { namespace: u32, name: u32 },
    CData { text: u32 },
}

/// The mathematical content of an `XmlChunk`.
pub enum XmlChunkView {
    ResourceMap(Seq<u32>),
    StartNamespace { prefix: u32, uri: u32 },
    EndNamespace { prefix: u32, uri: u32 },
    StartElement { namespace: u32, name: u32, attributes: Seq<XmlAttribute> },
    EndElement { namespace: u32, name: u32 },
    CData { text: u32 },
}

impl View for XmlChunk {
    type V = XmlChunkView;

    open spec fn view(&self) -> XmlChunkView {
        match self {
            XmlChunk::ResourceMap(ids) => XmlChunkView::ResourceMap(ids@),
            XmlChunk::StartNamespace { prefix, uri } => XmlChunkView::StartNamespace {
                prefix: *prefix,
                uri: *uri,
            },
            XmlChunk::EndNamespace { prefix, uri } => XmlChunkView::EndNamespace {
                prefix: *prefix,
                uri: *uri,
            },
            XmlChunk::StartElement { namespace, name, attributes } => XmlChunkView::StartElement {
                namespace: *namespace,
                name: *name,
                attributes: attributes@,
            },
            XmlChunk::EndElement { namespace, name } => XmlChunkView::EndElement {
                namespace: *namespace,
                name: *name,
            },
            XmlChunk::CData { text } => XmlChunkView::CData { text: *text },
        }
    }
}

/// The views of a sequence of chunks.
pub open spec fn chunk_views(v: Seq<XmlChunk>) -> Seq<XmlChunkView> {
    v.map_values(|c: XmlChunk| c@)
}

/// A decoded document: its strings and its chunks, in document order.
#[derive(Clone, Debug)]
pub struct XmlDocument {
    pub strings: Vec<Option<String>>,
    pub chunks: Vec<XmlChunk>,
}

/// The mathematical content of an `XmlDocument`.
pub struct XmlDocumentView {
    pub strings: Seq<Option<Seq<char>>>,
    pub chunks: Seq<XmlChunkView>,
}

impl View for XmlDocument {
    type V = XmlDocumentView;

    open spec fn view(&self) -> XmlDocumentView {
        XmlDocumentView { strings: text_views(self.strings@), chunks: chunk_views(self.chunks@) }
    }
}

/// Whether `i` is `NO_INDEX` or an index into a pool of `n` strings.
pub open spec fn index_or_none(i: int, n: int) -> bool {
    i == NO_INDEX || i < n
}

/// The typed value that a type byte and a payload stand for.
pub open spec fn value_of(data_type: u8, data: u32) -> AttributeValue {
    if data_type == TYPE_STRING {
        AttributeValue::Text(data)
    } else if data_type == TYPE_INT_DEC || data_type == TYPE_INT_HEX {
        AttributeValue::Integer(data)
    } else if data_type == TYPE_BOOLEAN {
        AttributeValue::Boolean(data != 0)
    } else if data_type == TYPE_REFERENCE {
        AttributeValue::Reference(data)
    } else {
        AttributeValue::Other(data_type, data)
    }
}

/// The attribute recorded at `a`, checked against a pool of `n` strings.
pub open spec fn attribute_at(s: Seq<u8>, a: int, n: int) -> Option<XmlAttribute> {
    let namespace = spec_u32_le(s, a);
    let name = spec_u32_le(s, a + 4);
    let raw = spec_u32_le(s, a + 8);
    let data_type = s[a + 15];
    let data = spec_u32_le(s, a + 16);
    if name >= n || !index_or_none(namespace, n) || !index_or_none(raw, n) || (data_type
        == TYPE_STRING && data >= n) {
        None
    } else {
        Some(
            XmlAttribute {
                namespace: namespace as u32,
                name: name as u32,
                raw: raw as u32,
                value: value_of(data_type, data as u32),
            },
        )
    }
}

/// The `count` attributes recorded from `a` on, each record `step` bytes
/// long and none reaching past `limit`.
pub open spec fn attributes_from(s: Seq<u8>, a: int, step: int, count: nat, limit: int, n: int)
    -> Option<Seq<XmlAttribute>>
    decreases count,
{
    if count == 0 {
        Some(Seq::empty())
    } else if step < ATTRIBUTE_SIZE || a + step > limit {
        None
    } else {
        match attribute_at(s, a, n) {
            None => None,
            Some(x) => match attributes_from(s, a + step, step, (count - 1) as nat, limit, n) {
                None => None,
                Some(rest) => Some(seq![x] + rest),
            },
        }
    }
}

/// The identifiers of a resource map whose body is `body .. limit`.
pub open spec fn resource_ids(s: Seq<u8>, body: int, limit: int) -> Seq<u32> {
    Seq::new(((limit - body) / 4) as nat, |k: int| spec_u32_le(s, body + 4 * k) as u32)
}

/// The element opened by the chunk whose body is `body .. limit`.
pub open spec fn start_element_at(s: Seq<u8>, body: int, limit: int, n: int) -> Option<
    XmlChunkView,
> {
    let namespace = spec_u32_le(s, body);
    let name = spec_u32_le(s, body + 4);
    if body + 20 > limit || name >= n || !index_or_none(namespace, n) {
        None
    } else {
        match attributes_from(
            s,
            body + spec_u16_le(s, body + 8),
            spec_u16_le(s, body + 10),
            spec_u16_le(s, body + 12) as nat,
            limit,
            n,
        ) {
            None => None,
            Some(attributes) => Some(
                XmlChunkView::StartElement {
                    namespace: namespace as u32,
                    name: name as u32,
                    attributes,
                },
            ),
        }
    }
}

/// The chunk that begins at `pos`, checked against a pool of `n` strings;
/// `None` if its type is unknown, a record in it is cut short, or an index
/// in it lies outside the pool.
pub open spec fn chunk_at(s: Seq<u8>, pos: int, n: int) -> Option<XmlChunkView> {
    let kind = chunk_kind(s, pos);
    let body = pos + chunk_header_size(s, pos);
    let limit = pos + chunk_size(s, pos);
    let first = spec_u32_le(s, body);
    let second = spec_u32_le(s, body + 4);
    if kind == RESOURCE_MAP {
        Some(XmlChunkView::ResourceMap(resource_ids(s, body, limit)))
    } else if chunk_header_size(s, pos) < NODE_HEADER_SIZE {
        None
    } else if kind == START_NAMESPACE || kind == END_NAMESPACE {
        if body + 8 > limit || !index_or_none(first, n) || !index_or_none(second, n) {
            None
        } else if kind == START_NAMESPACE {
            Some(XmlChunkView::StartNamespace { prefix: first as u32, uri: second as u32 })
        } else {
            Some(XmlChunkView::EndNamespace { prefix: first as u32, uri: second as u32 })
        }
    } else if kind == START_ELEMENT {
        start_element_at(s, body, limit, n)
    } else if kind == END_ELEMENT {
        if body + 8 > limit || second >= n || !index_or_none(first, n) {
            None
        } else {
            Some(XmlChunkView::EndElement { namespace: first as u32, name: second as u32 })
        }
    } else if kind == CDATA {
        if body + 4 > limit || first >= n {
            None
        } else {
            Some(XmlChunkView::CData { text: first as u32 })
        }
    } else {
        None
    }
}

/// The chunks that follow one another from `pos` and end exactly at `end`.
pub open spec fn chunks_from(s: Seq<u8>, pos: int, end: int, n: int) -> Option<Seq<XmlChunkView>>
    decreases end - pos,
{
    if pos >= end {
        Some(Seq::empty())
    } else if !chunk_fits(s, pos, end) {
        None
    } else {
        match chunk_at(s, pos, n) {
            None => None,
            Some(c) => match chunks_from(s, pos + chunk_size(s, pos), end, n) {
                None => None,
                Some(rest) => Some(seq![c] + rest),
            },
        }
    }
}

/// Whether `s` begins with the header of a document that lies inside `s`.
pub open spec fn document_header_ok(s: Seq<u8>) -> bool {
    &&& s.len() >= 8
    &&& chunk_kind(s, 0) == XML_DOCUMENT
    &&& chunk_header_size(s, 0) == 8
    &&& 8 <= chunk_size(s, 0) <= s.len()
}

/// The document encoded in `s`; `None` if it is malformed.
pub open spec fn document(s: Seq<u8>) -> Option<XmlDocumentView> {
    if !document_header_ok(s) {
        None
    } else {
        let end = chunk_size(s, 0);
        if !chunk_fits(s, 8, end) || chunk_kind(s, 8) != STRING_POOL {
            None
        } else {
            match pool_strings(s, 8) {
                None => None,
                Some(strings) => match chunks_from(
                    s,
                    8 + chunk_size(s, 8),
                    end,
                    strings.len() as int,
                ) {
                    None => None,
                    Some(chunks) => Some(XmlDocumentView { strings, chunks }),
                },
            }
        }
    }
}

/// Whether every index that the attribute holds is one that a pool of `n`
/// strings allows.
pub open spec fn attribute_in_bounds(a: XmlAttribute, n: int) -> bool {
    &&& a.name < n
    &&& index_or_none(a.namespace as int, n)
    &&& index_or_none(a.raw as int, n)
    &&& a.value matches AttributeValue::Text(index) ==> index < n
}

/// Whether every index that the chunk holds is one that a pool of `n`
/// strings allows: a name and a text are indices into the pool, a namespace,
/// a prefix and a raw value may also be `NO_INDEX`.
pub open spec fn chunk_in_bounds(c: XmlChunkView, n: int) -> bool {
    match c {
        XmlChunkView::ResourceMap(_) => true,
        XmlChunkView::StartNamespace { prefix, uri } => index_or_none(prefix as int, n)
            && index_or_none(uri as int, n),
        XmlChunkView::EndNamespace { prefix, uri } => index_or_none(prefix as int, n)
            && index_or_none(uri as int, n),
        XmlChunkView::StartElement { namespace, name, attributes } => {
            &&& name < n
            &&& index_or_none(namespace as int, n)
            &&& forall|i: int|
                0 <= i < attributes.len() ==> attribute_in_bounds(#[trigger] attributes[i], n)
        },
        XmlChunkView::EndElement { namespace, name } => name < n && index_or_none(
            namespace as int,
            n,
        ),
        XmlChunkView::CData { text } => text < n,
    }
}

impl XmlDocumentView {
    /// Whether every index in the document's chunks is one that the
    /// document's own pool allows.
    pub open spec fn indices_in_bounds(&self) -> bool {
        forall|i: int|
            0 <= i < self.chunks.len() ==> chunk_in_bounds(
                #[trigger] self.chunks[i],
                self.strings.len() as int,
            )
    }
}

/// Attributes that were read hold only indices that the pool allows.
pub proof fn lemma_attributes_in_bounds(
    s: Seq<u8>,
    a: int,
    step: int,
    count: nat,
    limit: int,
    n: int,
)
    ensures
        attributes_from(s, a, step, count, limit, n) matches Some(v) ==> v.len() == count
            && forall|i: int| 0 <= i < v.len() ==> attribute_in_bounds(#[trigger] v[i], n),
    decreases count,
{
    if count > 0 && step >= ATTRIBUTE_SIZE && a + step <= limit {
        lemma_attributes_in_bounds(s, a + step, step, (count - 1) as nat, limit, n);
    }
}

/// A chunk that was read holds only indices that the pool allows.
pub proof fn lemma_chunk_in_bounds(s: Seq<u8>, pos: int, n: int)
    ensures
        chunk_at(s, pos, n) matches Some(c) ==> chunk_in_bounds(c, n),
{
    let body = pos + chunk_header_size(s, pos);
    let limit = pos + chunk_size(s, pos);
    lemma_attributes_in_bounds(
        s,
        body + spec_u16_le(s, body + 8),
        spec_u16_le(s, body + 10),
        spec_u16_le(s, body + 12) as nat,
        limit,
        n,
    );
}

/// Chunks that were read hold only indices that the pool allows.
pub proof fn lemma_chunks_in_bounds(s: Seq<u8>, pos: int, end: int, n: int)
    ensures
        chunks_from(s, pos, end, n) matches Some(v) ==> forall|i: int|
            0 <= i < v.len() ==> chunk_in_bounds(#[trigger] v[i], n),
    decreases end - pos,
{
    if pos < end && chunk_fits(s, pos, end) {
        lemma_chunk_in_bounds(s, pos, n);
        lemma_chunks_in_bounds(s, pos + chunk_size(s, pos), end, n);
    }
}

/// A document that was decoded refers to no string outside its own pool.
pub proof fn lemma_document_in_bounds(s: Seq<u8>)
    ensures
        document(s) matches Some(d) ==> d.indices_in_bounds(),
{
    if document_header_ok(s) && chunk_fits(s, 8, chunk_size(s, 0)) {
        if pool_strings(s, 8) is Some {
            lemma_chunks_in_bounds(
                s,
                8 + chunk_size(s, 8),
                chunk_size(s, 0),
                pool_strings(s, 8)->Some_0.len() as int,
            );
        }
    }
}

/// Decides whether `i` is `NO_INDEX` or an index into a pool of `n` strings.
fn check_index_or_none(i: u32, n: usize) -> (r: bool)
    ensures
        r == index_or_none(i as int, n as int),
{
    i == NO_INDEX || (i as u64) < n as u64
}

/// Builds the typed value that a type byte and a payload stand for.
pub fn make_value(data_type: u8, data: u32) -> (r: AttributeValue)
    ensures
        r == value_of(data_type, data),
{
    if data_type == TYPE_STRING {
        AttributeValue::Text(data)
    } else if data_type == TYPE_INT_DEC || data_type == TYPE_INT_HEX {
        AttributeValue::Integer(data)
    } else if data_type == TYPE_BOOLEAN {
        AttributeValue::Boolean(data != 0)
    } else if data_type == TYPE_REFERENCE {
        AttributeValue::Reference(data)
    } else {
        AttributeValue::Other(data_type, data)
    }
}

/// Reads the attribute recorded at `a`.
fn read_attribute(data: &[u8], a: usize, n: usize) -> (r: Option<XmlAttribute>)
    requires
        a + ATTRIBUTE_SIZE <= data.len(),
    ensures
        r == attribute_at(data@, a as int, n as int),
{
    let namespace: u32 = u32_le(data, a);
    let name: u32 = u32_le(data, a + 4);
    let raw: u32 = u32_le(data, a + 8);
    let data_type: u8 = data[a + 15];
    let payload: u32 = u32_le(data, a + 16);
    if name as u64 >= n as u64 || !check_index_or_none(namespace, n) || !check_index_or_none(
        raw,
        n,
    ) || (data_type == TYPE_STRING && payload as u64 >= n as u64) {
        None
    } else {
        Some(XmlAttribute { namespace, name, raw, value: make_value(data_type, payload) })
    }
}

/// Reads `count` attributes from `start` on.
fn read_attributes(data: &[u8], start: usize, step: usize, count: u16, limit: usize, n: usize) -> (r:
    Option<Vec<XmlAttribute>>)
    requires
        start <= limit <= data.len(),
    ensures
        r matches Some(v) ==> attributes_from(
            data@,
            start as int,
            step as int,
            count as nat,
            limit as int,
            n as int,
        ) == Some(v@),
        r is None ==> attributes_from(
            data@,
            start as int,
            step as int,
            count as nat,
            limit as int,
            n as int,
        ) is None,
{
    let mut out: Vec<XmlAttribute> = Vec::new();
    let mut a: usize = start;
    let mut i: u16 = 0;
    proof {
        lemma_followed_by_ends(
            out@,
            attributes_from(data@, start as int, step as int, count as nat, limit as int, n as int),
        );
    }
    while i < count
        invariant
            start <= a <= limit <= data.len(),
            i <= count,
            attributes_from(
                data@,
                start as int,
                step as int,
                count as nat,
                limit as int,
                n as int,
            ) == followed_by(
                out@,
                attributes_from(
                    data@,
                    a as int,
                    step as int,
                    (count - i) as nat,
                    limit as int,
                    n as int,
                ),
            ),
        decreases count - i,
    {
        if step < ATTRIBUTE_SIZE || limit - a < step {
            return None;
        }
        match read_attribute(data, a, n) {
            None => {
                return None;
            },
            Some(x) => {
                proof {
                    lemma_followed_by_step(
                        out@,
                        x,
                        attributes_from(
                            data@,
                            a + step,
                            step as int,
                            (count - i - 1) as nat,
                            limit as int,
                            n as int,
                        ),
                    );
                }
                out.push(x);
            },
        }
        a = a + step;
        i = i + 1;
    }
    proof {
        lemma_followed_by_ends(
            out@,
            attributes_from(data@, start as int, step as int, count as nat, limit as int, n as int),
        );
    }
    Some(out)
}

/// Reads the identifiers of a resource map.
fn read_resource_ids(data: &[u8], body: usize, limit: usize) -> (r: Vec<u32>)
    requires
        body <= limit <= data.len(),
    ensures
        r@ == resource_ids(data@, body as int, limit as int),
{
    let count: usize = (limit - body) / 4;
    let mut ids: Vec<u32> = Vec::new();
    let mut k: usize = 0;
    while k < count
        invariant
            body <= limit <= data.len(),
            count == (limit - body) / 4,
            k <= count,
            ids@.len() == k,
            forall|j: int| 0 <= j < k ==> ids@[j] == spec_u32_le(data@, body + 4 * j) as u32,
        decreases count - k,
    {
        ids.push(u32_le(data, body + 4 * k));
        k = k + 1;
    }
    assert(ids@ =~= resource_ids(data@, body as int, limit as int));
    ids
}

/// Reads the element opened by the chunk whose body is `body .. limit`.
fn read_start_element(data: &[u8], body: usize, limit: usize, n: usize) -> (r: Option<XmlChunk>)
    requires
        body <= limit <= data.len(),
    ensures
        r matches Some(c) ==> start_element_at(data@, body as int, limit as int, n as int) == Some(
            c@,
        ),
        r is None ==> start_element_at(data@, body as int, limit as int, n as int) is None,
{
    if limit - body < 20 {
        return None;
    }
    let namespace: u32 = u32_le(data, body);
    let name: u32 = u32_le(data, body + 4);
    if name as u64 >= n as u64 || !check_index_or_none(namespace, n) {
        return None;
    }
    let offset: usize = u16_le(data, body + 8) as usize;
    let step: usize = u16_le(data, body + 10) as usize;
    let count: u16 = u16_le(data, body + 12);
    if count == 0 {
        return Some(XmlChunk::StartElement { namespace, name, attributes: Vec::new() });
    }
    if limit - body < offset {
        return None;
    }
    match read_attributes(data, body + offset, step, count, limit, n) {
        None => None,
        Some(attributes) => Some(XmlChunk::StartElement { namespace, name, attributes }),
    }
}

/// Reads the chunk that begins at `pos`.
fn read_chunk(data: &[u8], pos: usize, n: usize) -> (r: Option<XmlChunk>)
    requires
        chunk_fits(data@, pos as int, data.len() as int),
    ensures
        r matches Some(c) ==> chunk_at(data@, pos as int, n as int) == Some(c@),
        r is None ==> chunk_at(data@, pos as int, n as int) is None,
{
    let kind: u16 = u16_le(data, pos);
    let header_size: usize = u16_le(data, pos + 2) as usize;
    let size: usize = u32_le(data, pos + 4) as usize;
    let body: usize = pos + header_size;
    let limit: usize = pos + size;
    if kind == RESOURCE_MAP {
        return Some(XmlChunk::ResourceMap(read_resource_ids(data, body, limit)));
    }
    if header_size < NODE_HEADER_SIZE {
        return None;
    }
    if kind == START_ELEMENT {
        return read_start_element(data, body, limit, n);
    }
    if kind == START_NAMESPACE || kind == END_NAMESPACE || kind == END_ELEMENT {
        if limit - body < 8 {
            return None;
        }
        let first: u32 = u32_le(data, body);
        let second: u32 = u32_le(data, body + 4);
        if !check_index_or_none(first, n) {
            return None;
        }
        if kind == END_ELEMENT {
            if second as u64 >= n as u64 {
                return None;
            }
            return Some(XmlChunk::EndElement { namespace: first, name: second });
        }
        if !check_index_or_none(second, n) {
            return None;
        }
        if kind == START_NAMESPACE {
            return Some(XmlChunk::StartNamespace { prefix: first, uri: second });
        }
        return Some(XmlChunk::EndNamespace { prefix: first, uri: second });
    }
    if kind == CDATA {
        if limit - body < 4 {
            return None;
        }
        let text: u32 = u32_le(data, body);
        if text as u64 >= n as u64 {
            return None;
        }
        return Some(XmlChunk::CData { text });
    }
    None
}

/// Decides whether a whole chunk begins at `pos` and ends by `end`.
fn check_chunk_fits(data: &[u8], pos: usize, end: usize) -> (r: bool)
    requires
        pos <= end <= data.len(),
    ensures
        r == chunk_fits(data@, pos as int, end as int),
{
    if end - pos < 8 {
        return false;
    }
    let header_size: u16 = u16_le(data, pos + 2);
    let size: u32 = u32_le(data, pos + 4);
    header_size >= 8 && header_size as u32 <= size && size as u64 <= (end - pos) as u64
}

/// Reads the chunks from `start` to `end`.
fn read_chunks(data: &[u8], start: usize, end: usize, n: usize) -> (r: Option<Vec<XmlChunk>>)
    requires
        start <= end <= data.len(),
    ensures
        r matches Some(v) ==> chunks_from(data@, start as int, end as int, n as int) == Some(
            chunk_views(v@),
        ),
        r is None ==> chunks_from(data@, start as int, end as int, n as int) is None,
{
    let mut chunks: Vec<XmlChunk> = Vec::new();
    let mut pos: usize = start;
    proof {
        assert(chunk_views(chunks@) =~= Seq::<XmlChunkView>::empty());
        lemma_followed_by_ends(
            chunk_views(chunks@),
            chunks_from(data@, start as int, end as int, n as int),
        );
    }
    while pos < end
        invariant
            start <= pos <= end <= data.len(),
            chunks_from(data@, start as int, end as int, n as int) == followed_by(
                chunk_views(chunks@),
                chunks_from(data@, pos as int, end as int, n as int),
            ),
        decreases end - pos,
    {
        if !check_chunk_fits(data, pos, end) {
            return None;
        }
        let size: usize = u32_le(data, pos + 4) as usize;
        match read_chunk(data, pos, n) {
            None => {
                return None;
            },
            Some(c) => {
                proof {
                    assert(chunk_views(chunks@.push(c)) =~= chunk_views(chunks@).push(c@));
                    lemma_followed_by_step(
                        chunk_views(chunks@),
                        c@,
                        chunks_from(data@, pos + size, end as int, n as int),
                    );
                }
                chunks.push(c);
            },
        }
        pos = pos + size;
    }
    proof {
        lemma_followed_by_ends(
            chunk_views(chunks@),
            chunks_from(data@, start as int, end as int, n as int),
        );
    }
    Some(chunks)
}

/// Decodes a binary XML document.
///
/// `MalformedXml` if the document header is wrong or claims more bytes than
/// there are, if the first chunk is not a string pool, if a chunk has an
/// unknown type or does not fit, if a record is cut short, or if an index
/// lies outside the pool. A string whose content is not well-formed text is
/// kept as `None` and fails nothing.
pub fn decode_xml(data: &[u8]) -> (r: Result<XmlDocument, ApkError>)
    ensures
        r matches Ok(d) ==> document(data@) == Some(d@) && d@.indices_in_bounds(),
        r matches Err(e) ==> e == ApkError::MalformedXml && document(data@) is None,
{
    proof {
        lemma_document_in_bounds(data@);
    }
    if data.len() < 8 {
        return Err(ApkError::MalformedXml);
    }
    let kind: u16 = u16_le(data, 0);
    let header_size: u16 = u16_le(data, 2);
    let size: u32 = u32_le(data, 4);
    if kind != XML_DOCUMENT || header_size != 8 || size < 8 || size as u64 > data.len() as u64 {
        return Err(ApkError::MalformedXml);
    }
    let end: usize = size as usize;
    if !check_chunk_fits(data, 8, end) || u16_le(data, 8) != STRING_POOL {
        return Err(ApkError::MalformedXml);
    }
    let pool_size: usize = u32_le(data, 12) as usize;
    let strings = match read_pool(data, 8) {
        None => { return Err(ApkError::MalformedXml); },
        Some(strings) => strings,
    };
    assert(text_views(strings@).len() == strings.len());
    match read_chunks(data, 8 + pool_size, end, strings.len()) {
        None => Err(ApkError::MalformedXml),
        Some(chunks) => Ok(XmlDocument { strings, chunks }),
    }
}

} // verus!
