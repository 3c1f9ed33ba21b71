//! The files found as a document, to be written out and read back.
//!
//! The document is a list of records with the members `path`, `name`,
//! `size`, `time` and `hash`. How a document becomes text is the caller's
//! matter; what of a document makes a collection of files is decided here.

use vstd::prelude::*;
use crate::search_file::{file_views, FileView, SingleFileInformations};
use crate::text::text_eq;

verus! {

/// The value of a member of a record.
#[derive(Debug, Clone, PartialEq, Eq)]
pub enum FieldValue {
    /// A whole number that is not negative.
    Number(u64),
    /// A text.
    Text(String),
    /// Anything else.
    Other,
}

/// A member of a record: a key with its value.
#[derive(Debug, Clone, PartialEq, Eq)]
pub struct Field {
    pub key: String,
    pub value: FieldValue,
}

/// An element of a list.
#[derive(Debug, Clone, PartialEq, Eq)]
pub enum Element {
    /// A record, with its members in their order. Of two members with one
    /// key the first counts.
    Record(Vec<Field>),
    /// Anything else.
    Other,
}

/// A document.
#[derive(Debug, Clone, PartialEq, Eq)]
pub enum Document {
    /// A list, with its elements in their order.
    List(Vec<Element>),
    /// Anything else.
    Other,
}

/// What a `FieldValue` holds, as mathematical values.
pub enum ValueView {
    Number(u64),
    Text(Seq<char>),
    Other,
}

/// What a `Field` holds, as mathematical values.
pub struct FieldView {
    pub key: Seq<char>,
    pub value: ValueView,
}

/// What an `Element` holds, as mathematical values.
pub enum ElementView {
    Record(Seq<FieldView>),
    Other,
}

/// What a `Document` holds, as mathematical values.
pub enum DocumentView {
    List(Seq<ElementView>),
    Other,
}

impl View for FieldValue {
    type V = ValueView;

    open spec fn view(&self) -> ValueView {
        match self {
            FieldValue::Number(number) => ValueView::Number(*number),
            FieldValue::Text(text) => ValueView::Text(text@),
            FieldValue::Other => ValueView::Other,
        }
    }
}

impl View for Field {
    type V = FieldView;

    open spec fn view(&self) -> FieldView {
        FieldView { key: self.key@, value: self.value@ }
    }
}

/// The views of the members of a record, in its order.
pub open spec fn field_views(fields: Seq<Field>) -> Seq<FieldView> {
    Seq::new(fields.len(), |i: int| fields[i]@)
}

impl View for Element {
    type V = ElementView;

    open spec fn view(&self) -> ElementView {
        match self {
            Element::Record(fields) => ElementView::Record(field_views(fields@)),
            Element::Other => ElementView::Other,
        }
    }
}

/// The views of the elements of a list, in its order.
pub open spec fn element_views(elements: Seq<Element>) -> Seq<ElementView> {
    Seq::new(elements.len(), |i: int| elements[i]@)
}

impl View for Document {
    type V = DocumentView;

    open spec fn view(&self) -> DocumentView {
        match self {
            Document::List(elements) => DocumentView::List(element_views(elements@)),
            Document::Other => DocumentView::Other,
        }
    }
}

/// The members that the record of a file has.
#[derive(Debug, Clone, Copy, PartialEq, Eq, Structural)]
pub enum FieldName {
    Path,
    Name,
    Size,
    Time,
    Hash,
}

impl FieldName {
    /// The key of the member.
    pub open spec fn key(self) -> Seq<char> {
        match self {
            FieldName::Path => "path"@,
            FieldName::Name => "name"@,
            FieldName::Size => "size"@,
            FieldName::Time => "time"@,
            FieldName::Hash => "hash"@,
        }
    }

    /// The key of the member.
    pub fn as_str(self) -> (key: &'static str)
        ensures
            key@ == self.key(),
    {
        match self {
            FieldName::Path => "path",
            FieldName::Name => "name",
            FieldName::Size => "size",
            FieldName::Time => "time",
            FieldName::Hash => "hash",
        }
    }
}

/// Why a document is not a collection of files. Nothing is taken from such
/// a document.
#[derive(Debug, Clone, Copy, PartialEq, Eq, Structural)]
pub enum SerializationError {
    /// The document is not a list.
    NotAList,
    /// The element at `index` is not a record.
    NotARecord { index: usize },
    /// The record at `index` lacks a member.
    MissingField { index: usize, field: FieldName },
    /// A member of the record at `index` is not what it has to be: `path`,
    /// `name` and `hash` a text, `size` and `time` a number.
    WrongType { index: usize, field: FieldName },
}

/// The record of a file.
pub open spec fn exported_file(file: FileView) -> ElementView {
    ElementView::Record(
        seq![
            FieldView { key: FieldName::Path.key(), value: ValueView::Text(file.path) },
            FieldView { key: FieldName::Name.key(), value: ValueView::Text(file.name) },
            FieldView { key: FieldName::Size.key(), value: ValueView::Number(file.size) },
            FieldView { key: FieldName::Time.key(), value: ValueView::Number(file.time) },
            FieldView { key: FieldName::Hash.key(), value: ValueView::Text(file.hash) },
        ],
    )
}

/// The document of a collection of files: the list of their records.
pub open spec fn exported(files: Seq<FileView>) -> DocumentView {
    DocumentView::List(Seq::new(files.len(), |i: int| exported_file(files[i])))
}

/// The value of the first member with the key, if there is one.
pub open spec fn member(fields: Seq<FieldView>, key: Seq<char>) -> Option<ValueView>
    decreases fields.len(),
{
    if fields.len() == 0 {
        None
    } else if fields[0].key == key {
        Some(fields[0].value)
    } else {
        member(fields.drop_first(), key)
    }
}

/// The text of a member of the record at `index`.
pub open spec fn text_member(fields: Seq<FieldView>, index: usize, field: FieldName) -> Result<
    Seq<char>,
    SerializationError,
> {
    match member(fields, field.key()) {
        None => Err(SerializationError::MissingField { index, field }),
        Some(ValueView::Text(text)) => Ok(text),
        Some(_) => Err(SerializationError::WrongType { index, field }),
    }
}

/// The number of a member of the record at `index`.
pub open spec fn number_member(fields: Seq<FieldView>, index: usize, field: FieldName) -> Result<
    u64,
    SerializationError,
> {
    match member(fields, field.key()) {
        None => Err(SerializationError::MissingField { index, field }),
        Some(ValueView::Number(number)) => Ok(number),
        Some(_) => Err(SerializationError::WrongType { index, field }),
    }
}

/// The file of the element at `index`, or the first thing that is wrong
/// with the element: that it is no record, else the first of `path`, `name`,
/// `size`, `time` and `hash` that is missing or of the wrong type. Members
/// with other keys are passed over.
pub open spec fn imported_file(element: ElementView, index: usize) -> Result<
    FileView,
    SerializationError,
> {
    match element {
        ElementView::Other => Err(SerializationError::NotARecord { index }),
        ElementView::Record(fields) => match text_member(fields, index, FieldName::Path) {
            Err(error) => Err(error),
            Ok(path) => match text_member(fields, index, FieldName::Name) {
                Err(error) => Err(error),
                Ok(name) => match number_member(fields, index, FieldName::Size) {
                    Err(error) => Err(error),
                    Ok(size) => match number_member(fields, index, FieldName::Time) {
                        Err(error) => Err(error),
                        Ok(time) => match text_member(fields, index, FieldName::Hash) {
                            Err(error) => Err(error),
                            Ok(hash) => Ok(FileView { path, name, size, time, hash }),
                        },
                    },
                },
            },
        },
    }
}

/// The files of the elements of a list, or what is wrong with the first
/// element that is not the record of a file.
pub open spec fn imported_list(elements: Seq<ElementView>) -> Result<
    Seq<FileView>,
    SerializationError,
>
    decreases elements.len(),
{
    if elements.len() == 0 {
        Ok(Seq::empty())
    } else {
        match imported_list(elements.drop_last()) {
            Err(error) => Err(error),
            Ok(files) => match imported_file(elements.last(), (elements.len() - 1) as usize) {
                Err(error) => Err(error),
                Ok(file) => Ok(files.push(file)),
            },
        }
    }
}

/// The collection of files that a document holds, or why it holds none.
pub open spec fn imported(document: DocumentView) -> Result<Seq<FileView>, SerializationError> {
    match document {
        DocumentView::Other => Err(SerializationError::NotAList),
        DocumentView::List(elements) => imported_list(elements),
    }
}

/// No two members of a record have the same key.
proof fn lemma_keys_differ()
    ensures
        FieldName::Path.key() != FieldName::Name.key(),
        FieldName::Path.key() != FieldName::Size.key(),
        FieldName::Path.key() != FieldName::Time.key(),
        FieldName::Path.key() != FieldName::Hash.key(),
        FieldName::Name.key() != FieldName::Size.key(),
        FieldName::Name.key() != FieldName::Time.key(),
        FieldName::Name.key() != FieldName::Hash.key(),
        FieldName::Size.key() != FieldName::Time.key(),
        FieldName::Size.key() != FieldName::Hash.key(),
        FieldName::Time.key() != FieldName::Hash.key(),
{
    reveal_strlit("path");
    reveal_strlit("name");
    reveal_strlit("size");
    reveal_strlit("time");
    reveal_strlit("hash");
    assert("path"@[0] == 'p' && "name"@[0] == 'n' && "size"@[0] == 's' && "time"@[0] == 't'
        && "hash"@[0] == 'h');
}

/// A member whose key no member before it has is the one that is found.
proof fn lemma_member_at(fields: Seq<FieldView>, at: int)
    requires
        0 <= at < fields.len(),
        forall|i: int| 0 <= i < at ==> (#[trigger] fields[i]).key != fields[at].key,
    ensures
        member(fields, fields[at].key) == Some(fields[at].value),
    decreases at,
{
    if at > 0 {
        let rest = fields.drop_first();
        assert forall|i: int| 0 <= i < at - 1 implies (#[trigger] rest[i]).key != rest[at - 1].key by {
            assert(rest[i] == fields[i + 1]);
        }
        lemma_member_at(rest, at - 1);
    }
}

/// The record of a file holds that file.
pub proof fn lemma_file_round_trip(file: FileView, index: usize)
    ensures
        imported_file(exported_file(file), index) == Ok::<FileView, SerializationError>(file),
{
    let fields = exported_file(file)->Record_0;
    lemma_keys_differ();
    lemma_member_at(fields, 0);
    lemma_member_at(fields, 1);
    lemma_member_at(fields, 2);
    lemma_member_at(fields, 3);
    lemma_member_at(fields, 4);
}

/// Reading back what was written out gives the collection that was written,
/// file by file and member by member.
pub proof fn lemma_round_trip(files: Seq<FileView>)
    ensures
        imported(exported(files)) == Ok::<Seq<FileView>, SerializationError>(files),
    decreases files.len(),
{
    let elements = exported(files)->List_0;
    if files.len() == 0 {
        assert(files =~= Seq::empty());
    } else {
        let shorter = files.drop_last();
        lemma_round_trip(shorter);
        assert(elements.drop_last() =~= exported(shorter)->List_0);
        lemma_file_round_trip(files.last(), (files.len() - 1) as usize);
        assert(shorter.push(files.last()) =~= files);
    }
}

/// The document of a collection of files.
pub fn export_records(files: &Vec<SingleFileInformations>) -> (document: Document)
    ensures
        document@ == exported(file_views(files@)),
{
    let mut elements: Vec<Element> = Vec::new();
    let mut i: usize = 0;
    while i < files.len()
        invariant
            i <= files@.len(),
            elements@.len() == i,
            forall|k: int| 0 <= k < i ==> (#[trigger] elements@[k])@ == exported_file(files@[k]@),
        decreases files@.len() - i,
    {
        let file = &files[i];
        let mut fields: Vec<Field> = Vec::new();
        fields.push(
            Field {
                key: String::from_str(FieldName::Path.as_str()),
                value: FieldValue::Text(file.path.clone()),
            },
        );
        fields.push(
            Field {
                key: String::from_str(FieldName::Name.as_str()),
                value: FieldValue::Text(file.name.clone()),
            },
        );
        fields.push(
            Field {
                key: String::from_str(FieldName::Size.as_str()),
                value: FieldValue::Number(file.size),
            },
        );
        fields.push(
            Field {
                key: String::from_str(FieldName::Time.as_str()),
                value: FieldValue::Number(file.time),
            },
        );
        fields.push(
            Field {
                key: String::from_str(FieldName::Hash.as_str()),
                value: FieldValue::Text(file.hash.clone()),
            },
        );
        assert(field_views(fields@) =~= exported_file(file@)->Record_0);
        elements.push(Element::Record(fields));
        i += 1;
    }
    assert(element_views(elements@) =~= exported(file_views(files@))->List_0);
    Document::List(elements)
}

/// The value of the first member with the key, if there is one.
fn find_member<'a>(fields: &'a Vec<Field>, field: FieldName) -> (found: Option<&'a FieldValue>)
    ensures
        found matches Some(value) ==> member(field_views(fields@), field.key()) == Some(value@),
        found is None ==> member(field_views(fields@), field.key()) is None,
{
    let ghost all = field_views(fields@);
    let mut i: usize = 0;
    proof {
        assert(all.skip(0) =~= all);
    }
    while i < fields.len()
        invariant
            i <= fields@.len(),
            all == field_views(fields@),
            member(all, field.key()) == member(all.skip(i as int), field.key()),
        decreases fields@.len() - i,
    {
        proof {
            assert(all.skip(i as int).drop_first() =~= all.skip(i + 1));
        }
        if text_eq(fields[i].key.as_str(), field.as_str()) {
            return Some(&fields[i].value);
        }
        i += 1;
    }
    None
}

/// The text of a member of the record at `index`.
fn text_of(
    fields: &Vec<Field>,
    index: usize,
    field: FieldName,
) -> (r: Result<String, SerializationError>)
    ensures
        r is Ok <==> text_member(field_views(fields@), index, field) is Ok,
        r matches Ok(text) ==> Ok::<Seq<char>, SerializationError>(text@) == text_member(
            field_views(fields@),
            index,
            field,
        ),
        r matches Err(error) ==> Err::<Seq<char>, SerializationError>(error) == text_member(
            field_views(fields@),
            index,
            field,
        ),
{
    match find_member(fields, field) {
        None => Err(SerializationError::MissingField { index, field }),
        Some(FieldValue::Text(text)) => Ok(text.clone()),
        Some(_) => Err(SerializationError::WrongType { index, field }),
    }
}

/// The number of a member of the record at `index`.
fn number_of(
    fields: &Vec<Field>,
    index: usize,
    field: FieldName,
) -> (r: Result<u64, SerializationError>)
    ensures
        r == number_member(field_views(fields@), index, field),
{
    match find_member(fields, field) {
        None => Err(SerializationError::MissingField { index, field }),
        Some(FieldValue::Number(number)) => Ok(*number),
        Some(_) => Err(SerializationError::WrongType { index, field }),
    }
}

/// The file of the element at `index`.
fn import_file(
    element: &Element,
    index: usize,
) -> (r: Result<SingleFileInformations, SerializationError>)
    ensures
        r is Ok <==> imported_file(element@, index) is Ok,
        r matches Ok(file) ==> Ok::<FileView, SerializationError>(file@) == imported_file(
            element@,
            index,
        ),
        r matches Err(error) ==> Err::<FileView, SerializationError>(error) == imported_file(
            element@,
            index,
        ),
{
    match element {
        Element::Other => Err(SerializationError::NotARecord { index }),
        Element::Record(fields) => {
            let path = match text_of(fields, index, FieldName::Path) {
                Ok(path) => path,
                Err(error) => {
                    return Err(error);
                },
            };
            let name = match text_of(fields, index, FieldName::Name) {
                Ok(name) => name,
                Err(error) => {
                    return Err(error);
                },
            };
            let size = match number_of(fields, index, FieldName::Size) {
                Ok(size) => size,
                Err(error) => {
                    return Err(error);
                },
            };
            let time = match number_of(fields, index, FieldName::Time) {
                Ok(time) => time,
                Err(error) => {
                    return Err(error);
                },
            };
            let hash = match text_of(fields, index, FieldName::Hash) {
                Ok(hash) => hash,
                Err(error) => {
                    return Err(error);
                },
            };
            Ok(SingleFileInformations { path, name, size, time, hash })
        },
    }
}

/// The collection of files that a document holds. A document of another
/// shape is an error, and nothing is taken from it.
pub fn import_records(
    document: &Document,
) -> (r: Result<Vec<SingleFileInformations>, SerializationError>)
    ensures
        r is Ok <==> imported(document@) is Ok,
        r matches Ok(files) ==> Ok::<Seq<FileView>, SerializationError>(file_views(files@))
            == imported(document@),
        r matches Err(error) ==> Err::<Seq<FileView>, SerializationError>(error) == imported(
            document@,
        ),
{
    match document {
        Document::Other => Err(SerializationError::NotAList),
        Document::List(elements) => {
            let ghost all = element_views(elements@);
            let mut files: Vec<SingleFileInformations> = Vec::new();
            let mut i: usize = 0;
            proof {
                assert(file_views(files@) =~= Seq::<FileView>::empty());
            }
            while i < elements.len()
                invariant
                    i <= elements@.len(),
                    all == element_views(elements@),
                    document@ == DocumentView::List(all),
                    imported_list(all.take(i as int)) == Ok::<Seq<FileView>, SerializationError>(
                        file_views(files@),
                    ),
                decreases elements@.len() - i,
            {
                let ghost before = file_views(files@);
                proof {
                    assert(all.take(i + 1).drop_last() =~= all.take(i as int));
                }
                match import_file(&elements[i], i) {
                    Ok(file) => {
                        let ghost added = file@;
                        files.push(file);
                        assert(file_views(files@) =~= before.push(added));
                    },
                    Err(error) => {
                        proof {
                            assert(imported_file(all[i as int], i) == Err::<
                                FileView,
                                SerializationError,
                            >(error));
                            lemma_import_fails_on(all, i as int);
                        }
                        return Err(error);
                    },
                }
                i += 1;
            }
            proof {
                assert(all.take(elements@.len() as int) =~= all);
            }
            Ok(files)
        },
    }
}

/// A list fails on the first element that fails.
proof fn lemma_import_fails_on(elements: Seq<ElementView>, at: int)
    requires
        0 <= at < elements.len() <= usize::MAX,
        imported_list(elements.take(at)) is Ok,
        imported_file(elements[at], at as usize) is Err,
    ensures
        imported_list(elements) == Err::<Seq<FileView>, SerializationError>(
            imported_file(elements[at], at as usize)->Err_0,
        ),
    decreases elements.len() - at,
{
    assert(elements.take(at + 1).drop_last() =~= elements.take(at));
    lemma_import_stays_failed(elements, at + 1);
}

/// A list whose beginning fails, fails as its beginning does.
proof fn lemma_import_stays_failed(elements: Seq<ElementView>, upto: int)
    requires
        0 <= upto <= elements.len(),
        imported_list(elements.take(upto)) is Err,
    ensures
        imported_list(elements) == imported_list(elements.take(upto)),
    decreases elements.len() - upto,
{
    if upto < elements.len() {
        assert(elements.take(upto + 1).drop_last() =~= elements.take(upto));
        lemma_import_stays_failed(elements, upto + 1);
    } else {
        assert(elements.take(upto) =~= elements);
    }
}

} // verus!
