//! TOML values as the library holds them.
//!
//! A value is kept as the `toml` crate's own value, together with the inline
//! TOML text that the crate writes for it and the little of its structure
//! that the metadata logic reads: whether it is a string, or an array and
//! which of its items are strings.  Two values are compared as the crate
//! compares them (a NaN float equals nothing, and `-0.0` equals `0.0`).
use vstd::prelude::*;

verus! {

/// `toml::Value`, the value that a [`TomlValue`] holds beside its text.
#[verifier::external_type_specification]
#[verifier::external_body]
pub struct ExTomlValue(toml::Value);

/// What the metadata logic reads of a TOML value's structure.
#[derive(Debug)]
pub enum TomlShape {
    /// A string, with its contents.
    Str(String),
    /// An array; each item is `Some` of its contents when it is a string.
    Array(Vec<Option<String>>),
    /// Any other value: integer, float, boolean, datetime or table.
    Other,
}

/// The view of a [`TomlShape`].
pub enum ShapeView {
    Str(Seq<char>),
    Array(Seq<Option<Seq<char>>>),
    Other,
}

/// The view of a [`TomlValue`].
pub struct TomlValueView {
    /// The value's inline TOML text.
    pub text: Seq<char>,
    pub shape: ShapeView,
}

/// A TOML value: the `toml` crate's value, its inline TOML text (the
/// value's `Display`) and its shape.
#[derive(Debug)]
pub struct TomlValue {
    text: String,
    shape: TomlShape,
    value: toml::Value,
}

pub open spec fn option_string_view(o: Option<String>) -> Option<Seq<char>> {
    match o {
        Some(s) => Some(s@),
        None => None,
    }
}

impl View for TomlShape {
    type V = ShapeView;

    open spec fn view(&self) -> ShapeView {
        match self {
            TomlShape::Str(s) => ShapeView::Str(s@),
            TomlShape::Array(items) => ShapeView::Array(
                items@.map_values(|o: Option<String>| option_string_view(o)),
            ),
            TomlShape::Other => ShapeView::Other,
        }
    }
}

impl View for TomlValue {
    type V = TomlValueView;

    closed spec fn view(&self) -> TomlValueView {
        TomlValueView { text: self.text@, shape: self.shape@ }
    }
}

/// The view of a list of TOML entries.
pub open spec fn entries_view(entries: Seq<(String, TomlValue)>) -> Seq<(Seq<char>, TomlValueView)> {
    entries.map_values(|e: (String, TomlValue)| (e.0@, e.1@))
}

/// What the `toml` crate makes of the document `text` when it reads it as
/// a table: its top-level entries in key order, or the text of its error.
pub uninterp spec fn toml_table_of(text: Seq<char>) -> Result<
    Seq<(Seq<char>, TomlValueView)>,
    Seq<char>,
>;

/// The view of what [`parse_toml_table`] returns.
pub open spec fn table_result_view(r: Result<Vec<(String, TomlValue)>, String>) -> Result<
    Seq<(Seq<char>, TomlValueView)>,
    Seq<char>,
> {
    match r {
        Ok(entries) => Ok(entries_view(entries@)),
        Err(e) => Err(e@),
    }
}

/// Reads `text` with `toml::from_str::<toml::Table>`.  On success each
/// top-level entry becomes its key and a [`TomlValue`] made of the value's
/// `Display` text and its shape; on failure the result is the error's
/// `Display` text.  The contract only names the result.
#[verifier::external_body]
pub(crate) fn parse_toml_table(text: &str) -> (r: Result<Vec<(String, TomlValue)>, String>)
    ensures
        table_result_view(r) == toml_table_of(text@),
{
    match toml::from_str::<toml::Table>(text) {
        Err(e) => Err(e.to_string()),
        Ok(t) => Ok(t.into_iter().map(|(k, v)| {
            let shape = match &v {
                toml::Value::String(s) => TomlShape::Str(s.clone()),
                toml::Value::Array(a) => TomlShape::Array(a.iter().map(|x| match x {
                    toml::Value::String(s) => Some(s.clone()),
                    _ => None,
                }).collect()),
                _ => TomlShape::Other,
            };
            (k, TomlValue { text: v.to_string(), shape, value: v })
        }).collect()),
    }
}

/// The view of a text or of the text of an error.
pub open spec fn text_result_view(r: Result<String, String>) -> Result<Seq<char>, Seq<char>> {
    match r {
        Ok(t) => Ok(t@),
        Err(e) => Err(e@),
    }
}

/// What `toml::to_string` gives for a map that holds the entries given, in
/// their order: the document's text, or the text of its error.
pub uninterp spec fn toml_document_text(entries: Seq<(Seq<char>, TomlValueView)>) -> Result<
    Seq<char>,
    Seq<char>,
>;

/// `toml::to_string` of an `indexmap::IndexMap` (which serialises as a map
/// in insertion order, as a struct with a flattened table does) holding the
/// entries of `entries`; an error becomes its `Display` text.  Each entry's
/// value is the value whose `Display` is its view's text, so the result is
/// named as a function of the views.  Nothing more is claimed of it.
#[verifier::external_body]
pub(crate) fn toml_document(entries: &Vec<(String, TomlValue)>) -> (r: Result<String, String>)
    ensures
        text_result_view(r) == toml_document_text(entries_view(entries@)),
{
    let map: indexmap::IndexMap<&str, &toml::Value> = entries.iter().map(|(k, v)| (k.as_str(), &v.value)).collect();
    match toml::to_string(&map) {
        Ok(s) => Ok(s),
        Err(e) => Err(e.to_string()),
    }
}

/// The `Display` text of the TOML string `s`.
pub uninterp spec fn toml_string_text(s: Seq<char>) -> Seq<char>;

/// The `Display` text of the TOML array of the strings `a`.
pub uninterp spec fn toml_strings_text(a: Seq<Seq<char>>) -> Seq<char>;

/// The view of the TOML string `s`.
pub open spec fn string_value_view(s: Seq<char>) -> TomlValueView {
    TomlValueView { text: toml_string_text(s), shape: ShapeView::Str(s) }
}

/// The view of the TOML array of the strings `a`.
pub open spec fn strings_value_view(a: Seq<Seq<char>>) -> TomlValueView {
    TomlValueView {
        text: toml_strings_text(a),
        shape: ShapeView::Array(a.map_values(|x: Seq<char>| Some(x))),
    }
}

/// `toml::Value::String(s)`, with its `Display` text (named) and its shape.
#[verifier::external_body]
pub(crate) fn toml_string_value(s: &str) -> (v: TomlValue)
    ensures
        v@ == (TomlValueView { text: toml_string_text(s@), shape: ShapeView::Str(s@) }),
{
    let value = toml::Value::String(s.to_owned());
    TomlValue { text: value.to_string(), shape: TomlShape::Str(s.to_owned()), value }
}

/// `toml::Value::Array` of the strings `a`, with its `Display` text (named)
/// and its shape.
#[verifier::external_body]
pub(crate) fn toml_strings_value(a: &Vec<String>) -> (v: TomlValue)
    ensures
        v@ == (TomlValueView {
            text: toml_strings_text(crate::note::strings_view(a@)),
            shape: ShapeView::Array(crate::note::strings_view(a@).map_values(|x: Seq<char>| Some(x))),
        }),
{
    let value = toml::Value::Array(a.iter().cloned().map(toml::Value::String).collect());
    let shape = TomlShape::Array(a.iter().cloned().map(Some).collect());
    TomlValue { text: value.to_string(), shape, value }
}

/// Whether `toml` holds the values whose views are `a` and `b` equal, by
/// `toml::Value`'s `PartialEq`.
pub uninterp spec fn toml_values_equal(a: TomlValueView, b: TomlValueView) -> bool;

/// `toml::Value`'s `==` on the values that `a` and `b` hold.  A value is
/// only ever made by [`parse_toml_table`] (or cloned), so its text is the
/// value's `Display`, which writes integers, floats (Rust's round-trip
/// formatting), strings, booleans, datetimes, arrays and tables so that the
/// text fixes the value up to the comparison: the result is named as a
/// function of the views.  Nothing more is claimed: in particular not that
/// a value equals itself, which a NaN float does not.
#[verifier::external_body]
fn toml_value_eq(a: &TomlValue, b: &TomlValue) -> (r: bool)
    ensures
        r == toml_values_equal(a@, b@),
{
    a.value == b.value
}

/// `toml::Value::clone`.
#[verifier::external_body]
fn clone_toml_value(v: &toml::Value) -> (r: toml::Value) {
    v.clone()
}

impl Clone for TomlShape {
    fn clone(&self) -> (r: Self)
        ensures
            r@ == self@,
    {
        match self {
            TomlShape::Str(s) => TomlShape::Str(s.clone()),
            TomlShape::Array(items) => {
                let mut out: Vec<Option<String>> = Vec::new();
                let mut i: usize = 0;
                while i < items.len()
                    invariant
                        i <= items@.len(),
                        out@.len() == i,
                        forall|j: int| 0 <= j < i ==> option_string_view(#[trigger] out@[j])
                            == option_string_view(items@[j]),
                    decreases items@.len() - i,
                {
                    let item = match &items[i] {
                        Some(s) => Some(s.clone()),
                        None => None,
                    };
                    out.push(item);
                    i = i + 1;
                }
                let r = TomlShape::Array(out);
                assert(out@.map_values(|o: Option<String>| option_string_view(o)) =~= items@.map_values(
                    |o: Option<String>| option_string_view(o),
                ));
                r
            },
            TomlShape::Other => TomlShape::Other,
        }
    }
}

impl Clone for TomlValue {
    fn clone(&self) -> (r: Self)
        ensures
            r@ == self@,
    {
        TomlValue {
            text: self.text.clone(),
            shape: self.shape.clone(),
            value: clone_toml_value(&self.value),
        }
    }
}

impl TomlValue {
    /// The value's inline TOML text.
    pub fn text(&self) -> (r: &String)
        ensures
            r@ == self@.text,
    {
        &self.text
    }

    /// The value's shape.
    pub fn shape(&self) -> (r: &TomlShape)
        ensures
            r@ == self@.shape,
    {
        &self.shape
    }

    /// Whether `self` and `other` are equal TOML values, as `toml` compares
    /// them.
    pub fn same_as(&self, other: &TomlValue) -> (r: bool)
        ensures
            r == toml_values_equal(self@, other@),
    {
        toml_value_eq(self, other)
    }
}

} // verus!
