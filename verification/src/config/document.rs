//! The TOML document a configuration lives in.
//!
//! `toml_edit` parses, keeps and prints the document. What its tables hold is
//! named here, and the functions below are the only way the library touches one.

use toml_edit::{Decor, DocumentMut, Item, Table, TomlError, Value};
use vstd::prelude::*;

verus! {

/// A parsed document.
#[verifier::external_type_specification]
#[verifier::external_body]
pub struct ExDocument(toml_edit::DocumentMut);

/// One table of a document: its root, or one under a header.
#[verifier::external_type_specification]
#[verifier::external_body]
pub struct ExTable(toml_edit::Table);

/// What is written around a value or a key: white space, and the comment behind
/// the one or above the other.
#[verifier::external_type_specification]
#[verifier::external_body]
pub struct ExDecor(toml_edit::Decor);

/// Why a text is not a document.
#[verifier::external_type_specification]
#[verifier::external_body]
pub struct ExTomlError(toml_edit::TomlError);

// ---------------------------------------------------------------------------
// What a table holds
// ---------------------------------------------------------------------------

/// What stands under a key, as far as one look tells.
#[derive(Debug)]
pub enum Field {
    Text(String),
    Flag(bool),
    Number(i64),
    List,
    Float,
    Datetime,
    InlineTable,
    /// A table of its own.
    Table,
    /// Tables under a repeated header.
    Tables,
}

/// What stands under a key.
pub enum FieldView {
    Text(Seq<char>),
    Flag(bool),
    Number(i64),
    List(Seq<FieldView>),
    Float,
    Datetime,
    InlineTable,
    Table(Table),
    Tables(Seq<Table>),
}

/// The look shows what is there.
pub open spec fn shows(look: Field, f: FieldView) -> bool {
    match look {
        Field::Text(text) => f == FieldView::Text(text@),
        Field::Flag(flag) => f == FieldView::Flag(flag),
        Field::Number(number) => f == FieldView::Number(number),
        Field::List => f is List,
        Field::Float => f is Float,
        Field::Datetime => f is Datetime,
        Field::InlineTable => f is InlineTable,
        Field::Table => f is Table,
        Field::Tables => f is Tables,
    }
}

/// A value is written behind its key; tables have headers.
pub open spec fn is_value(f: FieldView) -> bool {
    !(f is Table) && !(f is Tables)
}

/// What TOML calls it.
pub open spec fn kind_name(f: FieldView) -> Seq<char> {
    match f {
        FieldView::Text(_) => "string"@,
        FieldView::Flag(_) => "boolean"@,
        FieldView::Number(_) => "integer"@,
        FieldView::List(_) => "array"@,
        FieldView::Float => "float"@,
        FieldView::Datetime => "datetime"@,
        FieldView::InlineTable => "inline table"@,
        FieldView::Table(_) => "table"@,
        FieldView::Tables(_) => "array of tables"@,
    }
}

impl Field {
    /// What TOML calls it.
    pub fn kind(&self) -> (r: &'static str)
        ensures
            forall|f: FieldView| #[trigger] shows(*self, f) ==> r@ == kind_name(f),
    {
        match self {
            Field::Text(_) => "string",
            Field::Flag(_) => "boolean",
            Field::Number(_) => "integer",
            Field::List => "array",
            Field::Float => "float",
            Field::Datetime => "datetime",
            Field::InlineTable => "inline table",
            Field::Table => "table",
            Field::Tables => "array of tables",
        }
    }

    /// Is it a value?
    pub fn is_value(&self) -> (r: bool)
        ensures
            forall|f: FieldView| #[trigger] shows(*self, f) ==> r == is_value(f),
    {
        match self {
            Field::Table => false,
            Field::Tables => false,
            _ => true,
        }
    }
}

/// A list of texts and nothing else.
pub open spec fn texts(values: Seq<Seq<char>>) -> FieldView {
    FieldView::List(values.map_values(|v: Seq<char>| FieldView::Text(v)))
}

/// A table with nothing in it.
pub open spec fn nothing() -> Map<Seq<char>, FieldView> {
    Map::empty()
}

/// What a table holds, key by key.
pub uninterp spec fn fields(table: Table) -> Map<Seq<char>, FieldView>;

/// What is written around the values of a table, key by key: the comment behind a
/// value is part of it.
pub uninterp spec fn decors(table: Table) -> Map<Seq<char>, Decor>;

/// What is written around the keys of a table, key by key: the comment above a
/// key is part of it.
pub uninterp spec fn key_decors(table: Table) -> Map<Seq<char>, Decor>;

/// What is printed before and behind a value with this decor: white space, and
/// the comment behind it.
pub uninterp spec fn value_around(decor: Decor) -> (Seq<char>, Seq<char>);

/// What is printed before and behind a key with this decor: the comments above
/// it, and white space.
pub uninterp spec fn key_around(decor: Decor) -> (Seq<char>, Seq<char>);

/// The keys of a table, in the order they are written in.
pub uninterp spec fn keys_of(table: Table) -> Seq<Seq<char>>;

/// The keys that are not in the set, in order.
pub open spec fn others_among(keys: Seq<Seq<char>>, ours: Set<Seq<char>>) -> Seq<Seq<char>>
    decreases keys.len(),
{
    if keys.len() == 0 {
        Seq::empty()
    } else {
        let before = others_among(keys.drop_last(), ours);
        if ours.contains(keys.last()) {
            before
        } else {
            before.push(keys.last())
        }
    }
}

/// The keys with this one: where it stands, or at the end if it is new.
pub open spec fn with_key(keys: Seq<Seq<char>>, key: Seq<char>) -> Seq<Seq<char>> {
    if keys.contains(key) {
        keys
    } else {
        keys.push(key)
    }
}

/// The keys without this one.
pub open spec fn without_key(keys: Seq<Seq<char>>, key: Seq<char>) -> Seq<Seq<char>> {
    others_among(keys, Set::empty().insert(key))
}

/// The table was read out of a text, or made of one that was by the functions
/// below: there is nothing in it that cannot be written down, and printing its
/// tables in order puts every header behind the one it belongs to.
pub uninterp spec fn is_kept(table: Table) -> bool;

/// Where the table stood among the tables of its text; a new one stood nowhere.
/// Tables are printed in this order.
pub uninterp spec fn position_of(table: Table) -> Option<isize>;

/// How deep tables are nested below this one.
pub uninterp spec fn depth_of(table: Table) -> nat;

/// The root table of a document.
pub uninterp spec fn root_of(doc: DocumentMut) -> Table;

/// What reading a text as a document gives.
pub uninterp spec fn toml_parsed(text: Seq<char>) -> Result<DocumentMut, TomlError>;

/// A document as text.
pub uninterp spec fn toml_text(doc: DocumentMut) -> Seq<char>;

/// The sentence a parse error tells.
pub uninterp spec fn toml_error_text(e: TomlError) -> Seq<char>;

/// The tables under a repeated header, in order; none where there is no such
/// header.
pub open spec fn tables_at(m: Map<Seq<char>, FieldView>, key: Seq<char>) -> Seq<Table> {
    if m.contains_key(key) {
        match m[key] {
            FieldView::Tables(ts) => ts,
            _ => Seq::empty(),
        }
    } else {
        Seq::empty()
    }
}

/// Two tables agree on a key: both lack it, or both hold the same there.
pub open spec fn agree_on(
    a: Map<Seq<char>, FieldView>,
    b: Map<Seq<char>, FieldView>,
    key: Seq<char>,
) -> bool {
    if a.contains_key(key) {
        b.contains_key(key) && a[key] == b[key]
    } else {
        !b.contains_key(key)
    }
}

/// The table under a key, or one of those under a repeated header.
pub open spec fn table_under(m: Map<Seq<char>, FieldView>, key: Seq<char>, i: int) -> Option<
    Table,
> {
    if m.contains_key(key) {
        match m[key] {
            FieldView::Table(t) => Some(t),
            FieldView::Tables(ts) => if 0 <= i < ts.len() {
                Some(ts[i])
            } else {
                None
            },
            _ => None,
        }
    } else {
        None
    }
}

/// A header that stood at this position is that of the table, or of one below it.
pub open spec fn stands_below(table: Table, position: isize) -> bool
    decreases depth_of(table),
{
    position_of(table) == Some(position) || exists|key: Seq<char>, i: int|
        match #[trigger] table_under(fields(table), key, i) {
            Some(t) => depth_of(t) < depth_of(table) && stands_below(t, position),
            None => false,
        }
}

/// A table at `position` comes behind these tables and everything below them:
/// behind all of their positions, or, where they have none, with none of its own.
pub open spec fn comes_behind(ts: Seq<Table>, position: Option<isize>) -> bool {
    match position {
        Some(last) => {
            &&& ts.len() > 0
            &&& position_of(ts[0]) is Some
            &&& forall|i: int, p: isize|
                0 <= i < ts.len() && #[trigger] stands_below(ts[i], p) ==> p <= last
        },
        None => forall|i: int, p: isize| 0 <= i < ts.len() ==> !#[trigger] stands_below(ts[i], p),
    }
}

/// The tables under a repeated header were read out of a text, or were all added
/// since.
pub open spec fn are_placed(ts: Seq<Table>) -> bool {
    ts.len() > 0 ==> position_of(ts[0]) is Some || comes_behind(ts, None)
}

/// Every header below the second table stood below the first.
pub open spec fn headers_from(a: Table, b: Table) -> bool {
    forall|key: Seq<char>| #[trigger]
        fields(b).contains_key(key) && !is_value(fields(b)[key]) ==> fields(a).contains_key(key)
            && fields(a)[key] == fields(b)[key]
}

/// The same is written around a key and its value in both tables.
pub open spec fn written_alike(a: Table, b: Table, key: Seq<char>) -> bool {
    value_around(decors(b)[key]) == value_around(decors(a)[key]) && key_around(key_decors(b)[key])
        == key_around(key_decors(a)[key])
}

/// The same is written around every value of the first table, and around its key,
/// in the second.
pub open spec fn comments_agree(a: Table, b: Table) -> bool {
    forall|key: Seq<char>| #[trigger]
        fields(a).contains_key(key) && is_value(fields(a)[key]) ==> written_alike(a, b, key)
}

/// The second table reads as the first where no header stands.
pub open spec fn values_agree(a: Table, b: Table) -> bool {
    forall|key: Seq<char>|
        !fields(a).contains_key(key) || is_value(fields(a)[key]) ==> #[trigger] agree_on(
            fields(a),
            fields(b),
            key,
        )
}

/// The tables under a repeated header read the same: as many of them, and each
/// the same where it has no header below its own.
pub open spec fn tables_agree(a: Seq<Table>, b: Seq<Table>) -> bool {
    &&& a.len() == b.len()
    &&& forall|i: int|
        0 <= i < a.len() ==> values_agree(#[trigger] a[i], b[i]) && comments_agree(a[i], b[i])
}

/// `b` reads as `a` was written: the same values under the same keys, and under
/// each repeated header the same tables; a repeated header without tables leaves
/// no trace. Nothing is said of what tables with a header of their own hold.
pub open spec fn reads_back(a: Table, b: Table) -> bool {
    let (old, new) = (fields(a), fields(b));
    &&& values_agree(a, b)
    &&& forall|key: Seq<char>|
        old.contains_key(key) && #[trigger] old[key] is Tables ==> (if tables_at(old, key).len()
            == 0 {
            !new.contains_key(key)
        } else {
            new.contains_key(key) && new[key] is Tables && tables_agree(
                tables_at(old, key),
                tables_at(new, key),
            )
        })
}

// ---------------------------------------------------------------------------
// Reading and printing
// ---------------------------------------------------------------------------

/// Every table under a repeated header has a position.
pub open spec fn all_placed(m: Map<Seq<char>, FieldView>) -> bool {
    forall|key: Seq<char>, i: int|
        0 <= i < tables_at(m, key).len() ==> position_of(#[trigger] tables_at(m, key)[i]) is Some
}

/// `DocumentMut::from_str`. What it gives is a function of the text. Every table
/// it reads has a position, but for the root, which has no header.
#[verifier::external_body]
pub(crate) fn parse_document(text: &str) -> (r: Result<DocumentMut, TomlError>)
    ensures
        r == toml_parsed(text@),
        r matches Ok(doc) ==> is_kept(root_of(doc)),
        r matches Ok(doc) ==> all_placed(fields(root_of(doc))) && position_of(root_of(doc)) is None,
{
    text.parse::<DocumentMut>()
}

/// `DocumentMut::new`: a document with nothing in it.
pub assume_specification[ DocumentMut::new ]() -> (r: DocumentMut)
    ensures
        fields(root_of(r)) == nothing(),
        is_kept(root_of(r)),
;

/// `Clone` of a `DocumentMut`: the same document again.
pub assume_specification[ <DocumentMut as Clone>::clone ](doc: &DocumentMut) -> (r: DocumentMut)
    ensures
        r == *doc,
;

/// `Display` of a `DocumentMut`. The text is a function of the document. Where
/// the document was read and only edited through this module, the text can be
/// read again, and holds what the document does: its values, and, below a root
/// that has no header to be told apart from, what is written around them and
/// their keys.
#[verifier::external_body]
pub(crate) fn print_document(doc: &DocumentMut) -> (r: String)
    ensures
        r@ == toml_text(*doc),
        is_kept(root_of(*doc)) ==> (match toml_parsed(r@) {
            Ok(again) => reads_back(root_of(*doc), root_of(again)),
            Err(_) => false,
        }),
        is_kept(root_of(*doc)) && position_of(root_of(*doc)) is None ==> (match toml_parsed(r@) {
            Ok(again) => forall|key: Seq<char>| #[trigger]
                fields(root_of(*doc)).contains_key(key) && is_value(fields(root_of(*doc))[key])
                    ==> value_around(decors(root_of(again))[key]) == value_around(
                    decors(root_of(*doc))[key],
                ) && key_around(key_decors(root_of(again))[key]) == key_around(
                    key_decors(root_of(*doc))[key],
                ),
            Err(_) => false,
        }),
{
    doc.to_string()
}

/// `Display` of a `TomlError`. The text is a function of the error.
#[verifier::external_body]
pub(crate) fn toml_reason(e: &TomlError) -> (r: String)
    ensures
        r@ == toml_error_text(*e),
{
    e.to_string()
}

/// `DocumentMut::as_table`: the root.
pub assume_specification[ DocumentMut::as_table ](doc: &DocumentMut) -> (r: &Table)
    ensures
        *r == root_of(*doc),
;

/// `DocumentMut::as_table_mut`: the root, to be changed in place. The rest of
/// the document stays as it is.
pub assume_specification[ DocumentMut::as_table_mut ](doc: &mut DocumentMut) -> (r: &mut Table)
    ensures
        *r == root_of(*old(doc)),
        root_of(*final(doc)) == *final(r),
        *final(r) == *r ==> *final(doc) == *old(doc),
;

// ---------------------------------------------------------------------------
// Reading a table
// ---------------------------------------------------------------------------

/// `Table::get`, and which of the variants of `Item` and `Value` it is: what
/// stands under the key, if anything does.
#[verifier::external_body]
pub(crate) fn field_at(table: &Table, key: &str) -> (r: Option<Field>)
    ensures
        match r {
            Some(look) => fields(*table).contains_key(key@) && shows(look, fields(*table)[key@]),
            None => !fields(*table).contains_key(key@),
        },
{
    Some(match table.get(key)? {
        Item::Value(Value::String(text)) => Field::Text(text.value().clone()),
        Item::Value(Value::Boolean(flag)) => Field::Flag(*flag.value()),
        Item::Value(Value::Integer(number)) => Field::Number(*number.value()),
        Item::Value(Value::Array(_)) => Field::List,
        Item::Value(Value::Float(_)) => Field::Float,
        Item::Value(Value::Datetime(_)) => Field::Datetime,
        Item::Value(Value::InlineTable(_)) => Field::InlineTable,
        Item::Table(_) => Field::Table,
        Item::ArrayOfTables(_) => Field::Tables,
        Item::None => return None,
    })
}

/// The elements of the list under a key, if a list is there.
pub open spec fn elements_at(m: Map<Seq<char>, FieldView>, key: Seq<char>) -> Option<
    Seq<FieldView>,
> {
    if m.contains_key(key) {
        match m[key] {
            FieldView::List(elements) => Some(elements),
            _ => None,
        }
    } else {
        None
    }
}

/// `Item::as_array` and `Array::get`, and which of the variants of `Value` it
/// is: what stands at that place of the list under the key, if the list goes
/// that far.
#[verifier::external_body]
pub(crate) fn element_at(table: &Table, key: &str, index: usize) -> (r: Option<Field>)
    ensures
        match (r, elements_at(fields(*table), key@)) {
            (Some(look), Some(elements)) => index < elements.len() && shows(
                look,
                elements[index as int],
            ),
            (None, Some(elements)) => index >= elements.len(),
            (_, None) => r is None,
        },
        r is Some ==> index < usize::MAX,
{
    Some(match table.get(key)?.as_array()?.get(index)? {
        Value::String(text) => Field::Text(text.value().clone()),
        Value::Boolean(flag) => Field::Flag(*flag.value()),
        Value::Integer(number) => Field::Number(*number.value()),
        Value::Array(_) => Field::List,
        Value::Float(_) => Field::Float,
        Value::Datetime(_) => Field::Datetime,
        Value::InlineTable(_) => Field::InlineTable,
    })
}

// ---------------------------------------------------------------------------
// Changing a table
// ---------------------------------------------------------------------------

/// A value to write.
#[derive(Debug)]
pub enum Setting {
    Text(String),
    Flag(bool),
    Number(i64),
    List(Vec<String>),
}

/// The texts of a list.
pub open spec fn list_view(values: Seq<String>) -> Seq<Seq<char>> {
    values.map_values(|v: String| v@)
}

impl View for Setting {
    type V = FieldView;

    open spec fn view(&self) -> FieldView {
        match self {
            Setting::Text(text) => FieldView::Text(text@),
            Setting::Flag(flag) => FieldView::Flag(*flag),
            Setting::Number(number) => FieldView::Number(*number),
            Setting::List(values) => texts(list_view(values@)),
        }
    }
}

/// `Value::decor`: what is written around the value under the key, if a value is
/// there.
#[verifier::external_body]
pub(crate) fn decor_at(table: &Table, key: &str) -> (r: Option<Decor>)
    ensures
        match r {
            Some(decor) => fields(*table).contains_key(key@) && is_value(fields(*table)[key@])
                && decor == decors(*table)[key@],
            None => fields(*table).contains_key(key@) ==> !is_value(fields(*table)[key@]),
        },
{
    table.get(key)?.as_value().map(|value| value.decor().clone())
}

/// Only what stands under this key has changed: what the other keys hold, and
/// what is written around them, stays.
pub open spec fn only_touches(old_table: Table, new_table: Table, key: Seq<char>) -> bool {
    &&& position_of(new_table) == position_of(old_table)
    &&& forall|k: Seq<char>|
        k != key ==> #[trigger] agree_on(fields(old_table), fields(new_table), k)
    &&& forall|k: Seq<char>| k != key ==> #[trigger] decors(new_table)[k] == decors(old_table)[k]
    &&& forall|k: Seq<char>|
        k != key ==> #[trigger] key_decors(new_table)[k] == key_decors(old_table)[k]
}

/// `Table::get_mut`, with a new value in place of the old one and the old one's
/// surroundings around it: the key and what is written around both stay.
#[verifier::external_body]
pub(crate) fn replace_value(table: &mut Table, key: &str, new: Setting, decor: Decor)
    requires
        fields(*old(table)).contains_key(key@),
        is_value(fields(*old(table))[key@]),
        decor == decors(*old(table))[key@],
    ensures
        only_touches(*old(table), *final(table), key@),
        fields(*final(table)) == fields(*old(table)).insert(key@, new@),
        decors(*final(table))[key@] == decor,
        key_decors(*final(table))[key@] == key_decors(*old(table))[key@],
        keys_of(*final(table)) == keys_of(*old(table)),
        depth_of(*final(table)) <= depth_of(*old(table)),
        is_kept(*old(table)) ==> is_kept(*final(table)),
{
    let mut value = match new {
        Setting::Text(text) => Value::from(text),
        Setting::Flag(flag) => Value::from(flag),
        Setting::Number(number) => Value::from(number),
        Setting::List(values) => values.iter().map(String::as_str).collect(),
    };
    *value.decor_mut() = decor;
    if let Some(item) = table.get_mut(key) {
        *item = Item::Value(value);
    }
}

/// `Table::insert`: the value under the key, in place of whatever was there, or
/// as a new key at the end of the table.
#[verifier::external_body]
pub(crate) fn insert_value(table: &mut Table, key: &str, new: Setting)
    ensures
        only_touches(*old(table), *final(table), key@),
        fields(*final(table)) == fields(*old(table)).insert(key@, new@),
        keys_of(*final(table)) == with_key(keys_of(*old(table)), key@),
        depth_of(*final(table)) <= depth_of(*old(table)),
        is_kept(*old(table)) ==> is_kept(*final(table)),
{
    let value = match new {
        Setting::Text(text) => Value::from(text),
        Setting::Flag(flag) => Value::from(flag),
        Setting::Number(number) => Value::from(number),
        Setting::List(values) => values.iter().map(String::as_str).collect(),
    };
    table.insert(key, Item::Value(value));
}

/// `Table::remove`: the key, and what stands under it, are gone.
#[verifier::external_body]
pub(crate) fn remove_key(table: &mut Table, key: &str)
    ensures
        only_touches(*old(table), *final(table), key@),
        fields(*final(table)) == fields(*old(table)).remove(key@),
        keys_of(*final(table)) == without_key(keys_of(*old(table)), key@),
        depth_of(*final(table)) <= depth_of(*old(table)),
        is_kept(*old(table)) ==> is_kept(*final(table)),
{
    table.remove(key);
}

// ---------------------------------------------------------------------------
// Repeated headers
// ---------------------------------------------------------------------------

/// `Item::as_array_of_tables` and `ArrayOfTables::len`: how many tables stand
/// under the repeated header, if there is one.
#[verifier::external_body]
pub(crate) fn table_count(table: &Table, key: &str) -> (r: Option<usize>)
    ensures
        match r {
            Some(n) => fields(*table).contains_key(key@) && fields(*table)[key@] is Tables
                && tables_at(fields(*table), key@).len() == n,
            None => fields(*table).contains_key(key@) ==> !(fields(*table)[key@] is Tables),
        },
{
    table.get(key)?.as_array_of_tables().map(|tables| tables.len())
}

/// `ArrayOfTables::get`: one table of those under the repeated header.
#[verifier::external_body]
pub(crate) fn table_at<'a>(table: &'a Table, key: &str, index: usize) -> (r: Option<&'a Table>)
    ensures
        match r {
            Some(t) => index < tables_at(fields(*table), key@).len() && *t == tables_at(
                fields(*table),
                key@,
            )[index as int] && depth_of(*t) < depth_of(*table),
            None => index >= tables_at(fields(*table), key@).len(),
        },
{
    table.get(key)?.as_array_of_tables()?.get(index)
}

/// `Item::as_table`: the table under a key, if one is there.
#[verifier::external_body]
pub(crate) fn table_below<'a>(table: &'a Table, key: &str) -> (r: Option<&'a Table>)
    ensures
        match r {
            Some(t) => fields(*table).contains_key(key@) && fields(*table)[key@]
                == FieldView::Table(*t) && depth_of(*t) < depth_of(*table),
            None => fields(*table).contains_key(key@) ==> !(fields(*table)[key@] is Table),
        },
{
    table.get(key)?.as_table()
}

/// `Table::iter`, of each pair the key: the keys something stands under.
#[verifier::external_body]
pub(crate) fn table_keys(table: &Table) -> (r: Vec<String>)
    ensures
        forall|key: Seq<char>| #[trigger]
            fields(*table).contains_key(key) ==> list_view(r@).contains(key),
        forall|i: int| 0 <= i < r@.len() ==> fields(*table).contains_key((#[trigger] r@[i])@),
{
    table.iter().map(|(key, _)| key.to_owned()).collect()
}

/// `Table::position`.
pub assume_specification[ toml_edit::Table::position ](table: &toml_edit::Table) -> (r: Option<
    isize,
>)
    ensures
        r == position_of(*table),
;

/// The table with other tables under the repeated header.
pub open spec fn with_tables(
    m: Map<Seq<char>, FieldView>,
    key: Seq<char>,
    ts: Seq<Table>,
) -> Map<Seq<char>, FieldView> {
    m.insert(key, FieldView::Tables(ts))
}

/// `ArrayOfTables::get_mut`: one table of those under the repeated header, to be
/// changed in place. The others stay as they are. What reads back still does,
/// where the table keeps its position and gets no header below its own.
#[verifier::external_body]
pub(crate) fn table_at_mut<'a>(table: &'a mut Table, key: &str, index: usize) -> (r: &'a mut Table)
    requires
        index < tables_at(fields(*old(table)), key@).len(),
    ensures
        *r == tables_at(fields(*old(table)), key@)[index as int],
        fields(*final(table)) == with_tables(
            fields(*old(table)),
            key@,
            tables_at(fields(*old(table)), key@).update(index as int, *final(r)),
        ),
        decors(*final(table)) == decors(*old(table)),
        key_decors(*final(table)) == key_decors(*old(table)),
        keys_of(*final(table)) == keys_of(*old(table)),
        is_kept(*old(table)) ==> is_kept(*r),
        is_kept(*old(table)) && is_kept(*final(r)) && position_of(*final(r)) == position_of(*r)
            && headers_from(*r, *final(r)) ==> is_kept(*final(table)),
        position_of(*final(table)) == position_of(*old(table)),
        *final(r) == *r ==> *final(table) == *old(table),
{
    table[key].as_array_of_tables_mut().unwrap().get_mut(index).unwrap()
}

/// `Table::entry` and `Entry::or_insert`, then an `ArrayOfTables::new`: a
/// repeated header with no tables yet, in place of whatever stood there.
#[verifier::external_body]
pub(crate) fn start_tables(table: &mut Table, key: &str)
    ensures
        only_touches(*old(table), *final(table), key@),
        fields(*final(table)) == with_tables(fields(*old(table)), key@, Seq::empty()),
        keys_of(*final(table)) == with_key(keys_of(*old(table)), key@),
        is_kept(*old(table)) ==> is_kept(*final(table)),
{
    *table.entry(key).or_insert(Item::None) = Item::ArrayOfTables(
        toml_edit::ArrayOfTables::new(),
    );
}

/// `Table::set_position` of a `Table::new`, and `ArrayOfTables::push`: one table
/// more under the repeated header, with nothing in it. Tables are printed by
/// their positions; one without a position is printed behind the last one that
/// was visited before it, and of two at one position the one visited first comes
/// first. So a table that comes behind the others of its header is printed behind
/// everything that belongs to them.
#[verifier::external_body]
pub(crate) fn push_table(table: &mut Table, key: &str, position: Option<isize>)
    requires
        fields(*old(table)).contains_key(key@),
        fields(*old(table))[key@] is Tables,
        tables_at(fields(*old(table)), key@).len() < usize::MAX,
    ensures
        only_touches(*old(table), *final(table), key@),
        tables_at(fields(*final(table)), key@).len() == tables_at(fields(*old(table)), key@).len()
            + 1,
        fields(*final(table)) == with_tables(
            fields(*old(table)),
            key@,
            tables_at(fields(*old(table)), key@).push(
                tables_at(fields(*final(table)), key@).last(),
            ),
        ),
        fields(tables_at(fields(*final(table)), key@).last()) == nothing(),
        position_of(tables_at(fields(*final(table)), key@).last()) == position,
        keys_of(*final(table)) == keys_of(*old(table)),
        is_kept(*old(table)) && comes_behind(tables_at(fields(*old(table)), key@), position)
            ==> is_kept(*final(table)),
{
    let mut new = toml_edit::Table::new();
    new.set_position(position);
    if let Some(tables) = table[key].as_array_of_tables_mut() {
        tables.push(new);
    }
}

/// `ArrayOfTables::remove` of the last table under the repeated header.
#[verifier::external_body]
pub(crate) fn drop_last_table(table: &mut Table, key: &str)
    requires
        tables_at(fields(*old(table)), key@).len() > 0,
    ensures
        only_touches(*old(table), *final(table), key@),
        fields(*final(table)) == with_tables(
            fields(*old(table)),
            key@,
            tables_at(fields(*old(table)), key@).drop_last(),
        ),
        keys_of(*final(table)) == keys_of(*old(table)),
        is_kept(*old(table)) ==> is_kept(*final(table)),
{
    if let Some(tables) = table[key].as_array_of_tables_mut() {
        tables.remove(tables.len() - 1);
    }
}

} // verus!
