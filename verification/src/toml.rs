//! `config.toml` through `toml_edit`, which keeps comments and layout intact. The library
//! sees a document, and each table in it, as its ordered entries. Each `toml_edit` method it
//! calls has a small trusted wrapper whose contract says what the method does to those
//! entries; reading and writing at a path through nested tables is built on them and
//! verified.

use vstd::prelude::*;
use toml_edit::{Item, Table};

verus! {

#[verifier::external_type_specification]
#[verifier::external_body]
pub struct ExDocumentMut(toml_edit::DocumentMut);

#[verifier::external_type_specification]
#[verifier::external_body]
pub struct ExTomlError(toml_edit::TomlError);

#[verifier::external_type_specification]
#[verifier::external_body]
pub struct ExTable(toml_edit::Table);

#[verifier::external_type_specification]
#[verifier::external_body]
pub struct ExItem(toml_edit::Item);

/// An item of a TOML table: a string, a boolean, a (standard) table with its entries in
/// order, an empty slot (`Item::None`, which lookups skip), or anything else.
pub enum TomlItem {
    Empty,
    Str(Seq<char>),
    Bool(bool),
    Table(Seq<(Seq<char>, TomlItem)>),
    Other,
}

/// The entries of a document's root table, in order, as `toml_edit` holds them.
pub uninterp spec fn toml_entries(doc: toml_edit::DocumentMut) -> Seq<(Seq<char>, TomlItem)>;

/// The entries of a table, in order (the `IndexMap` it keeps).
pub uninterp spec fn table_entries(t: toml_edit::Table) -> Seq<(Seq<char>, TomlItem)>;

/// What an item holds.
pub uninterp spec fn item_model(i: toml_edit::Item) -> TomlItem;

/// The text `toml_edit` prints for a document (`DocumentMut::to_string`).
pub uninterp spec fn toml_text(doc: toml_edit::DocumentMut) -> Seq<char>;

/// The root entries of the document `toml_edit` parses from `text`, or `None` where it
/// reports an error. A function of the text alone.
pub uninterp spec fn toml_parse_spec(text: Seq<char>) -> Option<Seq<(Seq<char>, TomlItem)>>;

/// The least index below `n` of an entry named `key`.
pub open spec fn entry_index(es: Seq<(Seq<char>, TomlItem)>, key: Seq<char>, n: int) -> Option<int>
    decreases n,
{
    if n <= 0 {
        None
    } else if entry_index(es, key, n - 1) is Some {
        entry_index(es, key, n - 1)
    } else if n - 1 < es.len() && es[n - 1].0 == key {
        Some(n - 1)
    } else {
        None
    }
}

/// `Table::get`: the item named `key`, unless it is an empty slot.
pub open spec fn lookup(es: Seq<(Seq<char>, TomlItem)>, key: Seq<char>) -> Option<TomlItem> {
    match entry_index(es, key, es.len() as int) {
        Some(i) => if es[i].1 is Empty { None } else { Some(es[i].1) },
        None => None,
    }
}

/// The entries of the table named `key`, if it is a table.
pub open spec fn sub_table(es: Seq<(Seq<char>, TomlItem)>, key: Seq<char>) -> Option<Seq<(Seq<char>, TomlItem)>> {
    match lookup(es, key) {
        Some(TomlItem::Table(t)) => Some(t),
        _ => None,
    }
}

/// `table[key] = item`: the slot named `key` takes the item in place; a new key is appended.
pub open spec fn set_entry(es: Seq<(Seq<char>, TomlItem)>, key: Seq<char>, it: TomlItem) -> Seq<(Seq<char>, TomlItem)> {
    match entry_index(es, key, es.len() as int) {
        Some(i) => es.update(i, (key, it)),
        None => es.push((key, it)),
    }
}

/// `Table::remove(key)` (`shift_remove`: the others keep their order).
pub open spec fn remove_entry(es: Seq<(Seq<char>, TomlItem)>, key: Seq<char>) -> Seq<(Seq<char>, TomlItem)> {
    match entry_index(es, key, es.len() as int) {
        Some(i) => es.remove(i),
        None => es,
    }
}

/// Applies `f` to the table named `t`, when the entry named `t` is a table.
pub open spec fn update_sub(
    es: Seq<(Seq<char>, TomlItem)>,
    t: Seq<char>,
    inner: Seq<(Seq<char>, TomlItem)>,
) -> Seq<(Seq<char>, TomlItem)> {
    match entry_index(es, t, es.len() as int) {
        Some(i) => if es[i].1 is Table { es.update(i, (t, TomlItem::Table(inner))) } else { es },
        None => es,
    }
}

/// The keys `Table::iter` yields: those of the non-empty slots, in order.
pub open spec fn visible_keys(es: Seq<(Seq<char>, TomlItem)>) -> Seq<Seq<char>>
    decreases es.len(),
{
    if es.len() == 0 {
        Seq::empty()
    } else if es.last().1 is Empty {
        visible_keys(es.drop_last())
    } else {
        visible_keys(es.drop_last()).push(es.last().0)
    }
}

/// What a lookup found, as the library reads it.
#[derive(Clone, Debug)]
pub enum TomlKind {
    Absent,
    Str(String),
    Bool(bool),
    Table,
    Other,
}

/// `k` is what a lookup that found `it` reports.
pub open spec fn kind_is(k: TomlKind, it: Option<TomlItem>) -> bool {
    match it {
        None => k is Absent,
        Some(TomlItem::Str(s)) => k matches TomlKind::Str(x) && x@ == s,
        Some(TomlItem::Bool(b)) => k == TomlKind::Bool(b),
        Some(TomlItem::Table(_)) => k is Table,
        Some(_) => k is Other,
    }
}

/// `DocumentMut::from_str`: succeeds exactly where the name says, with the entries it names.
#[verifier::external_body]
pub(crate) fn toml_parse(text: &str) -> (r: Result<toml_edit::DocumentMut, toml_edit::TomlError>)
    ensures
        r is Ok <==> toml_parse_spec(text@) is Some,
        r matches Ok(d) ==> toml_parse_spec(text@) == Some(toml_entries(d)),
{
    text.parse::<toml_edit::DocumentMut>()
}

/// `TomlError::to_string`; nothing is stated of the message.
#[verifier::external_body]
pub(crate) fn toml_error_message(e: &toml_edit::TomlError) -> (r: String) {
    e.to_string()
}

/// `DocumentMut::new`: a document without entries.
#[verifier::external_body]
pub(crate) fn toml_new() -> (r: toml_edit::DocumentMut)
    ensures
        toml_entries(r) == Seq::<(Seq<char>, TomlItem)>::empty(),
{
    toml_edit::DocumentMut::new()
}

/// `DocumentMut::to_string`.
#[verifier::external_body]
pub(crate) fn toml_to_string(doc: &toml_edit::DocumentMut) -> (r: String)
    ensures
        r@ == toml_text(*doc),
{
    doc.to_string()
}

/// A value the library stores in a table: a string, a boolean, or a new empty table.
pub enum TomlValue<'a> {
    Str(&'a str),
    Bool(bool),
    Table,
}

/// The item a stored value becomes.
pub open spec fn value_item(v: TomlValue) -> TomlItem {
    match v {
        TomlValue::Str(s) => TomlItem::Str(s@),
        TomlValue::Bool(b) => TomlItem::Bool(b),
        TomlValue::Table => TomlItem::Table(Seq::empty()),
    }
}

/// `DocumentMut::as_table`: the root table, whose entries are the document's.
#[verifier::external_body]
fn doc_table(doc: &toml_edit::DocumentMut) -> (r: &toml_edit::Table)
    ensures
        table_entries(*r) == toml_entries(*doc),
{
    doc.as_table()
}

/// `DocumentMut::as_table_mut`: the root table; what it holds when the borrow ends is what
/// the document holds.
#[verifier::external_body]
fn doc_table_mut(doc: &mut toml_edit::DocumentMut) -> (r: &mut toml_edit::Table)
    ensures
        table_entries(*r) == toml_entries(*old(doc)),
        toml_entries(*final(doc)) == table_entries(*final(r)),
{
    doc.as_table_mut()
}

/// `Table::get`: the item named `key`, unless there is none or its slot is empty.
#[verifier::external_body]
fn table_get<'a>(t: &'a toml_edit::Table, key: &str) -> (r: Option<&'a Item>)
    ensures
        match r {
            Some(i) => lookup(table_entries(*t), key@) == Some(item_model(*i)),
            None => lookup(table_entries(*t), key@) is None,
        },
{
    t.get(key)
}

/// `Table::get_mut`: the item named `key`, which stays in its slot; what it holds when the
/// borrow ends is what the slot holds.
#[verifier::external_body]
fn table_get_mut<'a>(t: &'a mut toml_edit::Table, key: &str) -> (r: Option<&'a mut Item>)
    ensures
        match r {
            Some(i) => lookup(table_entries(*old(t)), key@) == Some(item_model(*i)) && table_entries(*final(t))
                == set_entry(table_entries(*old(t)), key@, item_model(*final(i))),
            None => lookup(table_entries(*old(t)), key@) is None && table_entries(*final(t)) == table_entries(
                *old(t),
            ),
        },
{
    t.get_mut(key)
}

/// `Item::as_table`: the table an item is, if it is one.
#[verifier::external_body]
fn item_as_table(i: &Item) -> (r: Option<&toml_edit::Table>)
    ensures
        match r {
            Some(x) => item_model(*i) == TomlItem::Table(table_entries(*x)),
            None => !(item_model(*i) is Table),
        },
{
    i.as_table()
}

/// `Item::as_table_mut`: the table an item is, if it is one; the item is that table when
/// the borrow ends.
#[verifier::external_body]
fn item_as_table_mut(i: &mut Item) -> (r: Option<&mut toml_edit::Table>)
    ensures
        match r {
            Some(x) => item_model(*old(i)) == TomlItem::Table(table_entries(*x)) && item_model(*final(i))
                == TomlItem::Table(table_entries(*final(x))),
            None => !(item_model(*old(i)) is Table) && item_model(*final(i)) == item_model(*old(i)),
        },
{
    i.as_table_mut()
}

/// `Item::as_str`: the string an item is, if it is one.
#[verifier::external_body]
fn item_as_str(i: &Item) -> (r: Option<&str>)
    ensures
        match r {
            Some(s) => item_model(*i) == TomlItem::Str(s@),
            None => !(item_model(*i) is Str),
        },
{
    i.as_str()
}

/// `Item::as_bool`: the boolean an item is, if it is one.
#[verifier::external_body]
fn item_as_bool(i: &Item) -> (r: Option<bool>)
    ensures
        match r {
            Some(b) => item_model(*i) == TomlItem::Bool(b),
            None => !(item_model(*i) is Bool),
        },
{
    i.as_bool()
}

/// `Table::iter`, keys only: the keys of the non-empty slots, in order.
#[verifier::external_body]
fn table_keys(t: &toml_edit::Table) -> (r: Vec<String>)
    ensures
        r@.map_values(|k: String| k@) == visible_keys(table_entries(*t)),
{
    t.iter().map(|(k, _)| k.to_string()).collect()
}

/// `table[key] = item` (`IndexMut`, which keeps an existing slot's place and appends a new
/// one), the item being `value(s)`, `value(b)` or `Item::Table(Table::new())`.
#[verifier::external_body]
fn table_set(t: &mut toml_edit::Table, key: &str, v: TomlValue)
    ensures
        table_entries(*final(t)) == set_entry(table_entries(*old(t)), key@, value_item(v)),
{
    t[key] = match v {
        TomlValue::Str(s) => toml_edit::value(s),
        TomlValue::Bool(b) => toml_edit::value(b),
        TomlValue::Table => Item::Table(Table::new()),
    };
}

/// `Table::remove` (a `shift_remove`: the other entries keep their order).
#[verifier::external_body]
fn table_remove(t: &mut toml_edit::Table, key: &str)
    ensures
        table_entries(*final(t)) == remove_entry(table_entries(*old(t)), key@),
{
    t.remove(key);
}

/// An item read as a `TomlKind`.
fn kind_of(i: &Item) -> (r: TomlKind)
    ensures
        kind_is(r, Some(item_model(*i))),
{
    match item_as_str(i) {
        Some(s) => TomlKind::Str(crate::text::copy_str(s)),
        None => match item_as_bool(i) {
            Some(b) => TomlKind::Bool(b),
            None => match item_as_table(i) {
                Some(_) => TomlKind::Table,
                None => TomlKind::Other,
            },
        },
    }
}

/// The table named `key` in `t`, if that entry is a table.
fn table_get_table<'a>(t: &'a toml_edit::Table, key: &str) -> (r: Option<&'a toml_edit::Table>)
    ensures
        match r {
            Some(x) => sub_table(table_entries(*t), key@) == Some(table_entries(*x)),
            None => sub_table(table_entries(*t), key@) is None,
        },
{
    match table_get(t, key) {
        Some(i) => item_as_table(i),
        None => None,
    }
}

/// The item named `key` in `t`, read as a `TomlKind`.
fn table_kind(t: &toml_edit::Table, key: &str) -> (r: TomlKind)
    ensures
        kind_is(r, lookup(table_entries(*t), key@)),
{
    match table_get(t, key) {
        Some(i) => kind_of(i),
        None => TomlKind::Absent,
    }
}

/// `doc.get(key)`, read as a `TomlKind`.
pub fn toml_get(doc: &toml_edit::DocumentMut, key: &str) -> (r: TomlKind)
    ensures
        kind_is(r, lookup(toml_entries(*doc), key@)),
{
    table_kind(doc_table(doc), key)
}

/// `doc.get(t)` as a table, then `.get(key)`, read as a `TomlKind` (`Absent` when `t` is
/// not a table).
pub fn toml_get_in(doc: &toml_edit::DocumentMut, t: &str, key: &str) -> (r: TomlKind)
    ensures
        kind_is(
            r,
            match sub_table(toml_entries(*doc), t@) {
                Some(es) => lookup(es, key@),
                None => None,
            },
        ),
{
    match table_get_table(doc_table(doc), t) {
        Some(x) => table_kind(x, key),
        None => TomlKind::Absent,
    }
}

/// `doc.get(t1)` as a table, `.get(t2)` as a table, then `.get(key)`, read as a `TomlKind`.
pub fn toml_get_in2(doc: &toml_edit::DocumentMut, t1: &str, t2: &str, key: &str) -> (r: TomlKind)
    ensures
        kind_is(
            r,
            match sub_table(toml_entries(*doc), t1@) {
                Some(es) => match sub_table(es, t2@) {
                    Some(inner) => lookup(inner, key@),
                    None => None,
                },
                None => None,
            },
        ),
{
    match table_get_table(doc_table(doc), t1) {
        Some(a) => match table_get_table(a, t2) {
            Some(b) => table_kind(b, key),
            None => TomlKind::Absent,
        },
        None => TomlKind::Absent,
    }
}

/// The keys `Table::iter` yields for the table named `t` (none when `t` is not a table).
pub fn toml_table_keys(doc: &toml_edit::DocumentMut, t: &str) -> (r: Vec<String>)
    ensures
        r@.map_values(|k: String| k@) == match sub_table(toml_entries(*doc), t@) {
            Some(es) => visible_keys(es),
            None => Seq::empty(),
        },
{
    match table_get_table(doc_table(doc), t) {
        Some(x) => table_keys(x),
        None => {
            let v: Vec<String> = Vec::new();
            assert(v@.map_values(|k: String| k@) =~= Seq::<Seq<char>>::empty());
            v
        },
    }
}

/// `doc[key] = item` on the root table.
pub fn toml_set(doc: &mut toml_edit::DocumentMut, key: &str, v: TomlValue)
    ensures
        toml_entries(*final(doc)) == set_entry(toml_entries(*old(doc)), key@, value_item(v)),
{
    let root = doc_table_mut(doc);
    table_set(root, key, v);
}

/// `doc.as_table_mut().remove(key)`.
pub fn toml_remove(doc: &mut toml_edit::DocumentMut, key: &str)
    ensures
        toml_entries(*final(doc)) == remove_entry(toml_entries(*old(doc)), key@),
{
    let root = doc_table_mut(doc);
    table_remove(root, key);
}

/// Writing an item back into its own slot changes nothing.
proof fn lemma_set_entry_same(es: Seq<(Seq<char>, TomlItem)>, key: Seq<char>)
    requires
        lookup(es, key) is Some,
    ensures
        set_entry(es, key, lookup(es, key)->0) == es,
{
    let i = entry_index(es, key, es.len() as int)->0;
    crate::config::lemma_entry_index_bounds(es, key, es.len() as int);
    assert(es.update(i, (key, es[i].1)) =~= es);
}

/// Writing a table into the slot of a table is `update_sub`.
proof fn lemma_set_entry_table(es: Seq<(Seq<char>, TomlItem)>, key: Seq<char>, inner: Seq<(Seq<char>, TomlItem)>)
    requires
        sub_table(es, key) is Some,
    ensures
        set_entry(es, key, TomlItem::Table(inner)) == update_sub(es, key, inner),
{
    crate::config::lemma_entry_index_bounds(es, key, es.len() as int);
}

/// In the table `key` of `t`, when it is one, applies `table_set`.
fn table_set_in(t: &mut toml_edit::Table, key: &str, name: &str, v: TomlValue)
    ensures
        table_entries(*final(t)) == match sub_table(table_entries(*old(t)), key@) {
            Some(inner) => update_sub(table_entries(*old(t)), key@, set_entry(inner, name@, value_item(v))),
            None => table_entries(*old(t)),
        },
{
    let ghost es = table_entries(*t);
    match table_get_mut(t, key) {
        Some(i) => {
            match item_as_table_mut(i) {
                Some(x) => {
                    let ghost inner = table_entries(*x);
                    table_set(x, name, v);
                    proof {
                        lemma_set_entry_table(es, key@, set_entry(inner, name@, value_item(v)));
                    }
                },
                None => {
                    proof {
                        lemma_set_entry_same(es, key@);
                    }
                },
            }
        },
        None => {},
    }
}

/// In the table `key` of `t`, when it is one, applies `table_remove`.
fn table_remove_in(t: &mut toml_edit::Table, key: &str, name: &str)
    ensures
        table_entries(*final(t)) == match sub_table(table_entries(*old(t)), key@) {
            Some(inner) => update_sub(table_entries(*old(t)), key@, remove_entry(inner, name@)),
            None => table_entries(*old(t)),
        },
{
    let ghost es = table_entries(*t);
    match table_get_mut(t, key) {
        Some(i) => {
            match item_as_table_mut(i) {
                Some(x) => {
                    let ghost inner = table_entries(*x);
                    table_remove(x, name);
                    proof {
                        lemma_set_entry_table(es, key@, remove_entry(inner, name@));
                    }
                },
                None => {
                    proof {
                        lemma_set_entry_same(es, key@);
                    }
                },
            }
        },
        None => {},
    }
}

/// In the table named `t`, when it is one: `table.remove(key)`.
pub fn toml_remove_in(doc: &mut toml_edit::DocumentMut, t: &str, key: &str)
    ensures
        toml_entries(*final(doc)) == match sub_table(toml_entries(*old(doc)), t@) {
            Some(inner) => update_sub(toml_entries(*old(doc)), t@, remove_entry(inner, key@)),
            None => toml_entries(*old(doc)),
        },
{
    let root = doc_table_mut(doc);
    table_remove_in(root, t, key);
}

/// In the table named `t`, when it is one: `table[key] = item` (as `toml_set` builds it).
pub fn toml_set_in(doc: &mut toml_edit::DocumentMut, t: &str, key: &str, v: TomlValue)
    ensures
        toml_entries(*final(doc)) == match sub_table(toml_entries(*old(doc)), t@) {
            Some(inner) => update_sub(toml_entries(*old(doc)), t@, set_entry(inner, key@, value_item(v))),
            None => toml_entries(*old(doc)),
        },
{
    let root = doc_table_mut(doc);
    table_set_in(root, t, key, v);
}

/// In the table named `t2` inside the table named `t1`, when both are tables:
/// `table[key] = item` (as `toml_set` builds it).
pub fn toml_set_in2(doc: &mut toml_edit::DocumentMut, t1: &str, t2: &str, key: &str, v: TomlValue)
    ensures
        toml_entries(*final(doc)) == match sub_table(toml_entries(*old(doc)), t1@) {
            Some(mid) => match sub_table(mid, t2@) {
                Some(inner) => update_sub(
                    toml_entries(*old(doc)),
                    t1@,
                    update_sub(mid, t2@, set_entry(inner, key@, value_item(v))),
                ),
                None => toml_entries(*old(doc)),
            },
            None => toml_entries(*old(doc)),
        },
{
    let ghost es = toml_entries(*doc);
    let root = doc_table_mut(doc);
    match table_get_mut(root, t1) {
        Some(i) => {
            match item_as_table_mut(i) {
                Some(x) => {
                    let ghost mid = table_entries(*x);
                    table_set_in(x, t2, key, v);
                    proof {
                        if sub_table(mid, t2@) is None {
                            lemma_set_entry_table(es, t1@, mid);
                            crate::config::lemma_update_sub_same(es, t1@, mid);
                        } else {
                            lemma_set_entry_table(es, t1@, table_entries(*x));
                        }
                    }
                },
                None => {
                    proof {
                        lemma_set_entry_same(es, t1@);
                    }
                },
            }
        },
        None => {},
    }
}

} // verus!
