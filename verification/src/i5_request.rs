//! The Interface5 payload: named documents holding fields and file
//! attachments, the structural validity rule, and the validated payload's
//! JSON wire text.

use vstd::prelude::*;
use vstd::string::StringExecFns;

use crate::continuity::{is_continuous, spec_continuous};
use crate::decimal::{i32_to_string, int_rep};
use crate::encoding::{base64_of, encode_base64};
use crate::i5_error::I5RequestError;
use crate::json_text::{
    join_comma, json_string, json_string_text, lemma_join_comma_push,
};

verus! {

/// The mathematical content of a [`Field`].
pub struct FieldView {
    pub name: Seq<char>,
    pub value: Seq<char>,
    pub item_number: i32,
}

/// A single field of an Interface5 document: a named value, carrying the
/// item number of the line item it belongs to, or 0 for a header field.
pub struct Field {
    name: String,
    value: String,
    item_number: i32,
}

impl View for Field {
    type V = FieldView;

    closed spec fn view(&self) -> FieldView {
        FieldView { name: self.name@, value: self.value@, item_number: self.item_number }
    }
}

impl Field {
    /// Creates a new field; no validation happens at this layer.
    pub fn new(name: String, value: String, item_number: i32) -> (f: Field)
        ensures
            f@ == (FieldView { name: name@, value: value@, item_number: item_number }),
    {
        Field { name, value, item_number }
    }
}

/// The mathematical content of a [`File`].
pub struct FileView {
    pub name: Seq<char>,
    pub key: Option<Seq<char>>,
    pub data: Seq<char>,
}

/// A file attachment of an Interface5 document. The content is carried as
/// base64 text; the key is reserved for a server-assigned identifier and is
/// always absent at construction.
pub struct File {
    name: String,
    key: Option<String>,
    data_base64: String,
}

impl View for File {
    type V = FileView;

    closed spec fn view(&self) -> FileView {
        FileView {
            name: self.name@,
            key: match self.key {
                Option::Some(ref k) => Option::Some(k@),
                Option::None => Option::None,
            },
            data: self.data_base64@,
        }
    }
}

impl File {
    /// Creates a new file attachment from base64 text, with no key.
    pub fn new(name: String, data: String) -> (f: File)
        ensures
            f@ == (FileView { name: name@, key: Option::None, data: data@ }),
    {
        File { name, key: Option::None, data_base64: data }
    }
}

/// The mathematical content of a [`Document`].
pub struct DocumentView {
    pub name: Seq<char>,
    pub fields: Seq<FieldView>,
    pub files: Seq<FileView>,
}

/// A named document of an Interface5 payload, holding fields and file
/// attachments in the order they were appended. Append-only: nothing is ever
/// removed.
pub struct Document {
    name: String,
    fields: Vec<Field>,
    files: Vec<File>,
}

impl View for Document {
    type V = DocumentView;

    closed spec fn view(&self) -> DocumentView {
        DocumentView {
            name: self.name@,
            fields: self.fields@.map_values(|f: Field| f@),
            files: self.files@.map_values(|f: File| f@),
        }
    }
}

impl Document {
    /// Creates a new empty document.
    pub fn new(document_name: String) -> (d: Document)
        ensures
            d@ == (DocumentView {
                name: document_name@,
                fields: Seq::<FieldView>::empty(),
                files: Seq::<FileView>::empty(),
            }),
    {
        let d = Document { name: document_name, fields: Vec::new(), files: Vec::new() };
        proof {
            assert(d@.fields =~= Seq::<FieldView>::empty());
            assert(d@.files =~= Seq::<FileView>::empty());
        }
        d
    }

    /// Appends a header field (item number 0); returns a reference to the
    /// document so that calls can be chained.
    pub fn add_header_field(&mut self, name: String, value: String) -> (r: &mut Document)
        ensures
            (*r)@ == (DocumentView {
                name: old(self)@.name,
                fields: old(self)@.fields.push(
                    FieldView { name: name@, value: value@, item_number: 0 },
                ),
                files: old(self)@.files,
            }),
            *final(self) == *final(r),
    {
        let ghost fields0 = self@.fields;
        self.fields.push(Field { name, value, item_number: 0 });
        proof {
            assert(self@.fields =~= fields0.push(self.fields@.last()@));
        }
        self
    }

    /// Appends an item field with the given item number; returns a reference
    /// to the document so that calls can be chained.
    pub fn add_item_field(&mut self, name: String, value: String, item_number: i32) -> (r:
        &mut Document)
        ensures
            (*r)@ == (DocumentView {
                name: old(self)@.name,
                fields: old(self)@.fields.push(
                    FieldView { name: name@, value: value@, item_number: item_number },
                ),
                files: old(self)@.files,
            }),
            *final(self) == *final(r),
    {
        let ghost fields0 = self@.fields;
        self.fields.push(Field { name, value, item_number });
        proof {
            assert(self@.fields =~= fields0.push(self.fields@.last()@));
        }
        self
    }

    /// Appends a file attachment given as base64 text.
    pub fn add_base64_file(&mut self, name: String, base64: String)
        ensures
            final(self)@ == (DocumentView {
                name: old(self)@.name,
                fields: old(self)@.fields,
                files: old(self)@.files.push(
                    FileView { name: name@, key: Option::None, data: base64@ },
                ),
            }),
    {
        let ghost files0 = self@.files;
        self.files.push(File { name, key: Option::None, data_base64: base64 });
        proof {
            assert(self@.files =~= files0.push(self.files@.last()@));
        }
    }

    fn item_numbers(&self) -> (r: Vec<i32>)
        ensures
            r@ == doc_item_numbers(self@),
    {
        let mut out: Vec<i32> = Vec::new();
        let mut i: usize = 0;
        while i < self.fields.len()
            invariant
                i <= self.fields@.len(),
                out@.len() == i,
                forall|k: int| 0 <= k < i ==> out@[k] == self.fields@[k]@.item_number,
            decreases self.fields@.len() - i,
        {
            out.push(self.fields[i].item_number);
            i += 1;
        }
        proof {
            assert(out@ =~= doc_item_numbers(self@));
        }
        out
    }

    /// Appends a file attachment given as raw bytes, encoding them to base64
    /// text. The length bound is a machine limit of the encoder.
    pub fn add_bytes_file(&mut self, name: String, bytes: &[u8])
        requires
            4 * ((bytes@.len() + 2) / 3) <= usize::MAX,
        ensures
            final(self)@ == (DocumentView {
                name: old(self)@.name,
                fields: old(self)@.fields,
                files: old(self)@.files.push(
                    FileView { name: name@, key: Option::None, data: base64_of(bytes@) },
                ),
            }),
    {
        let base64_string = encode_base64(bytes);
        self.add_base64_file(name, base64_string);
    }
}

/// The item numbers of a document's fields, in field order.
pub open spec fn doc_item_numbers(d: DocumentView) -> Seq<i32> {
    d.fields.map_values(|f: FieldView| f.item_number)
}

/// The rule a single document is held to: a document fails only when it has
/// no fields, no files, and its item numbers (then an empty list) break the
/// continuity rule. An empty list never breaks that rule, so this predicate
/// in fact accepts every document; the shape is kept exactly as the live rule
/// has it.
pub open spec fn doc_acceptable(d: DocumentView) -> bool {
    !(d.fields.len() == 0 && d.files.len() == 0 && !spec_continuous(doc_item_numbers(d)))
}

/// Structural validity of a payload: it holds at least one document, and
/// every document is acceptable.
pub open spec fn payload_valid(r: I5ReqeustView) -> bool {
    r.documents.len() > 0 && (forall|i: int|
        0 <= i < r.documents.len() ==> doc_acceptable(#[trigger] r.documents[i]))
}

/// Under the live rule every single document is acceptable: a document with
/// at least one field or file passes outright, and a document with neither
/// has an empty item-number list, which satisfies the continuity rule
/// vacuously. Validation therefore turns on the document count alone. The
/// rule is kept in exactly this shape on purpose.
pub proof fn lemma_doc_acceptable_always(d: DocumentView)
    ensures
        doc_acceptable(d),
{
    if d.fields.len() == 0 {
        assert(doc_item_numbers(d) =~= Seq::<i32>::empty());
        assert(crate::continuity::item_set(doc_item_numbers(d)) =~= Set::<i32>::empty());
    }
}

/// A payload holding no documents never validates.
pub proof fn lemma_empty_payload_invalid(r: I5ReqeustView)
    requires
        r.documents.len() == 0,
    ensures
        !payload_valid(r),
{
}

/// A payload whose single document holds exactly one header field and no
/// files passes validation.
pub proof fn lemma_single_header_field_valid(r: I5ReqeustView)
    requires
        r.documents.len() == 1,
        r.documents[0].fields.len() == 1,
        r.documents[0].fields[0].item_number == 0,
        r.documents[0].files.len() == 0,
    ensures
        payload_valid(r),
{
    lemma_doc_acceptable_always(r.documents[0]);
}

/// A payload whose single document holds no fields and no files passes
/// validation: the document's item-number set is then empty, and an empty set
/// satisfies the continuity rule vacuously.
pub proof fn lemma_empty_document_passes(r: I5ReqeustView)
    requires
        r.documents.len() == 1,
        r.documents[0].fields.len() == 0,
        r.documents[0].files.len() == 0,
    ensures
        payload_valid(r),
{
    lemma_doc_acceptable_always(r.documents[0]);
}

/// The mathematical content of an [`I5Reqeust`].
pub struct I5ReqeustView {
    pub name: Seq<char>,
    pub documents: Seq<DocumentView>,
}

/// The complete Interface5 request payload: a named, append-only collection
/// of documents, retrievable by stable positional index.
pub struct I5Reqeust {
    name: String,
    documents: Vec<Document>,
}

impl View for I5Reqeust {
    type V = I5ReqeustView;

    closed spec fn view(&self) -> I5ReqeustView {
        I5ReqeustView {
            name: self.name@,
            documents: self.documents@.map_values(|d: Document| d@),
        }
    }
}

impl I5Reqeust {
    /// Creates a new empty payload with the given name.
    pub fn new(name: String) -> (r: I5Reqeust)
        ensures
            r@ == (I5ReqeustView { name: name@, documents: Seq::<DocumentView>::empty() }),
    {
        let r = I5Reqeust { name, documents: Vec::new() };
        proof {
            assert(r@.documents =~= Seq::<DocumentView>::empty());
        }
        r
    }

    /// Appends a new empty document and returns its index, which stays valid
    /// for the payload's whole lifetime.
    pub fn add_document(&mut self, document_name: String) -> (index: usize)
        ensures
            index == old(self)@.documents.len(),
            final(self)@ == (I5ReqeustView {
                name: old(self)@.name,
                documents: old(self)@.documents.push(
                    DocumentView {
                        name: document_name@,
                        fields: Seq::<FieldView>::empty(),
                        files: Seq::<FileView>::empty(),
                    },
                ),
            }),
    {
        let ghost docs0 = self@.documents;
        self.documents.push(Document::new(document_name));
        proof {
            assert(self@.documents =~= docs0.push(self.documents@.last()@));
        }
        self.documents.len() - 1
    }

    /// Looks a document up by index; absent when the index is out of range.
    pub fn get_document(&self, index: usize) -> (r: Option<&Document>)
        ensures
            (index < self@.documents.len()) == (r is Some),
            r matches Some(d) ==> (*d)@ == self@.documents[index as int],
    {
        if index < self.documents.len() {
            Some(&self.documents[index])
        } else {
            None
        }
    }

    /// Looks a document up by index for further mutation; absent when the
    /// index is out of range, in which case the payload stays as it was.
    pub fn get_document_mut(&mut self, index: usize) -> (r: Option<&mut Document>)
        ensures
            (index < old(self)@.documents.len()) == (r is Some),
            r matches Some(d) ==> (*d)@ == old(self)@.documents[index as int] && final(self)@.name
                == old(self)@.name && final(self)@.documents =~= old(self)@.documents.update(
                index as int,
                (*final(d))@,
            ),
            r is None ==> *final(self) == *old(self),
    {
        if index < self.documents.len() {
            Some(&mut self.documents[index])
        } else {
            None
        }
    }

    /// Checks the payload's structural validity: at least one document, and
    /// every document acceptable under the continuity rule.
    pub fn is_valid(&self) -> (r: bool)
        ensures
            r == payload_valid(self@),
    {
        if self.documents.len() == 0 {
            return false;
        }
        let mut di: usize = 0;
        while di < self.documents.len()
            invariant
                di <= self.documents@.len(),
                self.documents@.len() > 0,
                forall|i: int| 0 <= i < di ==> doc_acceptable(#[trigger] self@.documents[i]),
            decreases self.documents@.len() - di,
        {
            let document = &self.documents[di];
            let item_numbers = document.item_numbers();
            if document.fields.len() == 0 && document.files.len() == 0 && !is_continuous(
                item_numbers.as_slice(),
            ) {
                proof {
                    assert(!doc_acceptable(self@.documents[di as int]));
                }
                return false;
            }
            di += 1;
        }
        true
    }

    /// Validates the payload, consuming it: a structurally valid payload
    /// comes back wrapped as a [`ValidatedI5Request`] with unchanged content,
    /// an invalid one as a validation failure.
    pub fn validate(self) -> (r: Result<ValidatedI5Request, I5RequestError>)
        ensures
            payload_valid(self@) ==> (r matches Ok(v) && v@ == self@),
            !payload_valid(self@) ==> (r matches Err(e) && e == I5RequestError::ValidationError),
    {
        if self.is_valid() {
            Ok(ValidatedI5Request(self))
        } else {
            Err(I5RequestError::ValidationError)
        }
    }
}

/// A payload that satisfied all structural invariants at the moment
/// [`I5Reqeust::validate`] wrapped it. There is no other producer, nothing
/// mutates it further, and it is the sole type the wire text is derived from.
pub struct ValidatedI5Request(I5Reqeust);

impl View for ValidatedI5Request {
    type V = I5ReqeustView;

    closed spec fn view(&self) -> I5ReqeustView {
        self.0@
    }
}

/// The wire text of one field: a JSON object with the fixed keys `Name`,
/// `Value` and `ItemNo`.
pub open spec fn json_field(f: FieldView) -> Seq<char> {
    "{\"Name\":"@ + json_string(f.name) + ",\"Value\":"@ + json_string(f.value) + ",\"ItemNo\":"@
        + int_rep(f.item_number as int) + "}"@
}

/// The wire text of an optional string: `null` when absent.
pub open spec fn json_opt_string(k: Option<Seq<char>>) -> Seq<char> {
    match k {
        Option::None => "null"@,
        Option::Some(s) => json_string(s),
    }
}

/// The wire text of one file attachment: a JSON object with the fixed keys
/// `Name`, `Key` and `Data`.
pub open spec fn json_file(f: FileView) -> Seq<char> {
    "{\"Name\":"@ + json_string(f.name) + ",\"Key\":"@ + json_opt_string(f.key) + ",\"Data\":"@
        + json_string(f.data) + "}"@
}

/// The wire text of one document: its name, then its fields and files as
/// JSON arrays, each in the order it was appended.
pub open spec fn json_document(d: DocumentView) -> Seq<char> {
    "{\"Name\":"@ + json_string(d.name) + ",\"Fields\":["@ + join_comma(
        d.fields.map_values(|f: FieldView| json_field(f)),
    ) + "],\"Files\":["@ + join_comma(d.files.map_values(|f: FileView| json_file(f))) + "]}"@
}

/// The wire text of a whole payload: its name, then its documents as a JSON
/// array, in the order they were appended.
pub open spec fn json_request(r: I5ReqeustView) -> Seq<char> {
    "{\"Name\":"@ + json_string(r.name) + ",\"Documents\":["@ + join_comma(
        r.documents.map_values(|d: DocumentView| json_document(d)),
    ) + "]}"@
}

fn json_field_text(f: &Field) -> (r: String)
    ensures
        r@ == json_field(f@),
{
    let mut out = String::new();
    out.append("{\"Name\":");
    let name_text = json_string_text(f.name.as_str());
    out.append(name_text.as_str());
    out.append(",\"Value\":");
    let value_text = json_string_text(f.value.as_str());
    out.append(value_text.as_str());
    out.append(",\"ItemNo\":");
    let number_text = i32_to_string(f.item_number);
    out.append(number_text.as_str());
    out.append("}");
    proof {
        assert(out@ =~= json_field(f@));
    }
    out
}

fn json_file_text(f: &File) -> (r: String)
    ensures
        r@ == json_file(f@),
{
    let mut out = String::new();
    out.append("{\"Name\":");
    let name_text = json_string_text(f.name.as_str());
    out.append(name_text.as_str());
    out.append(",\"Key\":");
    match &f.key {
        Some(k) => {
            let key_text = json_string_text(k.as_str());
            out.append(key_text.as_str());
        },
        None => {
            out.append("null");
        },
    }
    out.append(",\"Data\":");
    let data_text = json_string_text(f.data_base64.as_str());
    out.append(data_text.as_str());
    out.append("}");
    proof {
        assert(out@ =~= json_file(f@));
    }
    out
}

fn json_document_text(d: &Document) -> (r: String)
    ensures
        r@ == json_document(d@),
{
    let mut out = String::new();
    out.append("{\"Name\":");
    let name_text = json_string_text(d.name.as_str());
    out.append(name_text.as_str());
    out.append(",\"Fields\":[");
    let ghost head = "{\"Name\":"@ + json_string(d@.name) + ",\"Fields\":["@;
    let ghost field_texts = d@.fields.map_values(|f: FieldView| json_field(f));
    let mut i: usize = 0;
    while i < d.fields.len()
        invariant
            i <= d.fields@.len(),
            field_texts == d@.fields.map_values(|f: FieldView| json_field(f)),
            field_texts.len() == d.fields@.len(),
            out@ =~= head + join_comma(field_texts.subrange(0, i as int)),
        decreases d.fields@.len() - i,
    {
        if i > 0 {
            out.append(",");
        }
        let t = json_field_text(&d.fields[i]);
        out.append(t.as_str());
        proof {
            let pre = field_texts.subrange(0, i as int);
            assert(field_texts.subrange(0, i + 1) =~= pre.push(field_texts[i as int]));
            lemma_join_comma_push(pre, field_texts[i as int]);
            assert(field_texts[i as int] == json_field(d@.fields[i as int]));
            assert(out@ =~= head + join_comma(field_texts.subrange(0, i + 1)));
        }
        i += 1;
    }
    out.append("],\"Files\":[");
    let ghost head2 = head + join_comma(field_texts) + "],\"Files\":["@;
    proof {
        assert(field_texts.subrange(0, field_texts.len() as int) =~= field_texts);
        assert(out@ =~= head2);
    }
    let ghost file_texts = d@.files.map_values(|f: FileView| json_file(f));
    let mut j: usize = 0;
    while j < d.files.len()
        invariant
            j <= d.files@.len(),
            file_texts == d@.files.map_values(|f: FileView| json_file(f)),
            file_texts.len() == d.files@.len(),
            out@ =~= head2 + join_comma(file_texts.subrange(0, j as int)),
        decreases d.files@.len() - j,
    {
        if j > 0 {
            out.append(",");
        }
        let t = json_file_text(&d.files[j]);
        out.append(t.as_str());
        proof {
            let pre = file_texts.subrange(0, j as int);
            assert(file_texts.subrange(0, j + 1) =~= pre.push(file_texts[j as int]));
            lemma_join_comma_push(pre, file_texts[j as int]);
            assert(file_texts[j as int] == json_file(d@.files[j as int]));
            assert(out@ =~= head2 + join_comma(file_texts.subrange(0, j + 1)));
        }
        j += 1;
    }
    out.append("]}");
    proof {
        assert(file_texts.subrange(0, file_texts.len() as int) =~= file_texts);
        assert(out@ =~= json_document(d@));
    }
    out
}

fn json_request_text(r: &I5Reqeust) -> (out: String)
    ensures
        out@ == json_request(r@),
{
    let mut out = String::new();
    out.append("{\"Name\":");
    let name_text = json_string_text(r.name.as_str());
    out.append(name_text.as_str());
    out.append(",\"Documents\":[");
    let ghost head = "{\"Name\":"@ + json_string(r@.name) + ",\"Documents\":["@;
    let ghost doc_texts = r@.documents.map_values(|d: DocumentView| json_document(d));
    let mut i: usize = 0;
    while i < r.documents.len()
        invariant
            i <= r.documents@.len(),
            doc_texts == r@.documents.map_values(|d: DocumentView| json_document(d)),
            doc_texts.len() == r.documents@.len(),
            out@ =~= head + join_comma(doc_texts.subrange(0, i as int)),
        decreases r.documents@.len() - i,
    {
        if i > 0 {
            out.append(",");
        }
        let t = json_document_text(&r.documents[i]);
        out.append(t.as_str());
        proof {
            let pre = doc_texts.subrange(0, i as int);
            assert(doc_texts.subrange(0, i + 1) =~= pre.push(doc_texts[i as int]));
            lemma_join_comma_push(pre, doc_texts[i as int]);
            assert(doc_texts[i as int] == json_document(r@.documents[i as int]));
            assert(out@ =~= head + join_comma(doc_texts.subrange(0, i + 1)));
        }
        i += 1;
    }
    out.append("]}");
    proof {
        assert(doc_texts.subrange(0, doc_texts.len() as int) =~= doc_texts);
        assert(out@ =~= json_request(r@));
    }
    out
}

/// Fields keep their insertion order in the wire text: a document with one
/// more field appended renders exactly as before, with the new field's text
/// standing last in the field array.
pub proof fn lemma_wire_keeps_field_order(d: DocumentView, f: FieldView)
    ensures
        json_document(DocumentView { name: d.name, fields: d.fields.push(f), files: d.files })
            == "{\"Name\":"@ + json_string(d.name) + ",\"Fields\":["@ + (if d.fields.len() == 0 {
            json_field(f)
        } else {
            (join_comma(d.fields.map_values(|x: FieldView| json_field(x))) + ","@ + json_field(f))
        }) + "],\"Files\":["@ + join_comma(d.files.map_values(|x: FileView| json_file(x))) + "]}"@,
{
    let texts = d.fields.map_values(|x: FieldView| json_field(x));
    assert(d.fields.push(f).map_values(|x: FieldView| json_field(x)) =~= texts.push(
        json_field(f),
    ));
    lemma_join_comma_push(texts, json_field(f));
}

/// Documents keep their insertion order in the wire text: a payload with one
/// more document appended renders exactly as before, with the new document's
/// text standing last in the document array.
pub proof fn lemma_wire_keeps_document_order(r: I5ReqeustView, d: DocumentView)
    ensures
        json_request(I5ReqeustView { name: r.name, documents: r.documents.push(d) })
            == "{\"Name\":"@ + json_string(r.name) + ",\"Documents\":["@ + (
        if r.documents.len() == 0 {
            json_document(d)
        } else {
            (join_comma(r.documents.map_values(|x: DocumentView| json_document(x))) + ","@
                + json_document(d))
        }) + "]}"@,
{
    let texts = r.documents.map_values(|x: DocumentView| json_document(x));
    assert(r.documents.push(d).map_values(|x: DocumentView| json_document(x)) =~= texts.push(
        json_document(d),
    ));
    lemma_join_comma_push(texts, json_document(d));
}

impl ValidatedI5Request {
    /// Renders the validated payload as its JSON wire text. The rendering is
    /// total, so the result is always the success case; the failure case is
    /// kept for callers that treat rendering as fallible.
    pub fn to_json_string(&self) -> (r: Result<String, I5RequestError>)
        ensures
            r matches Ok(s) && s@ == json_request(self@),
    {
        Ok(json_request_text(&self.0))
    }
}

} // verus!
