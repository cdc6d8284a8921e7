//! Schema definitions as parsed from `attributeTypes` / `objectClasses` values.
use vstd::prelude::*;

use crate::text::{copy_string, copy_strings, views};

verus! {

#[derive(Debug)]
pub struct AttributeType {
    pub oid: String,
    /// NAME aliases (normalized to lowercase).
    pub names: Vec<String>,
    /// SUP (lowercase).
    pub sup: Option<String>,
    /// SYNTAX OID ({len} stripped).
    pub syntax: Option<String>,
    pub single_value: bool,
    pub no_user_mod: bool,
    /// USAGE other than userApplications → operational attribute.
    pub is_operational: bool,
}

pub struct AttributeTypeView {
    pub oid: Seq<char>,
    pub names: Seq<Seq<char>>,
    pub sup: Option<Seq<char>>,
    pub syntax: Option<Seq<char>>,
    pub single_value: bool,
    pub no_user_mod: bool,
    pub is_operational: bool,
}

pub open spec fn opt_view(o: Option<String>) -> Option<Seq<char>> {
    match o {
        Some(s) => Some(s@),
        None => None,
    }
}

impl View for AttributeType {
    type V = AttributeTypeView;

    open spec fn view(&self) -> AttributeTypeView {
        AttributeTypeView {
            oid: self.oid@,
            names: views(self.names@),
            sup: opt_view(self.sup),
            syntax: opt_view(self.syntax),
            single_value: self.single_value,
            no_user_mod: self.no_user_mod,
            is_operational: self.is_operational,
        }
    }
}

pub fn copy_opt_string(o: &Option<String>) -> (r: Option<String>)
    ensures
        opt_view(r) == opt_view(*o),
{
    match o {
        Some(s) => Some(copy_string(s)),
        None => None,
    }
}

impl AttributeType {
    /// A copy with the same content.
    pub fn copy(&self) -> (r: Self)
        ensures
            r@ == self@,
    {
        let names = copy_strings(&self.names);
        AttributeType {
            oid: copy_string(&self.oid),
            names,
            sup: copy_opt_string(&self.sup),
            syntax: copy_opt_string(&self.syntax),
            single_value: self.single_value,
            no_user_mod: self.no_user_mod,
            is_operational: self.is_operational,
        }
    }
}

#[derive(PartialEq, Eq, Structural, Clone, Copy, Debug)]
pub enum OcKind {
    Abstract,
    StructuralClass,
    Auxiliary,
}

#[derive(Debug)]
pub struct ObjectClass {
    pub oid: String,
    /// NAME aliases (normalized to lowercase).
    pub names: Vec<String>,
    /// The first NAME as the schema writes it (the OID in lower case when there is no NAME).
    pub first_name: String,
    /// SUP (lowercase).
    pub sup: Vec<String>,
    pub kind: OcKind,
    /// MUST attribute names (lowercase).
    pub must: Vec<String>,
    /// MAY attribute names (lowercase).
    pub may: Vec<String>,
}

pub struct ObjectClassView {
    pub oid: Seq<char>,
    pub names: Seq<Seq<char>>,
    pub first_name: Seq<char>,
    pub sup: Seq<Seq<char>>,
    pub kind: OcKind,
    pub must: Seq<Seq<char>>,
    pub may: Seq<Seq<char>>,
}

impl View for ObjectClass {
    type V = ObjectClassView;

    open spec fn view(&self) -> ObjectClassView {
        ObjectClassView {
            oid: self.oid@,
            names: views(self.names@),
            first_name: self.first_name@,
            sup: views(self.sup@),
            kind: self.kind,
            must: views(self.must@),
            may: views(self.may@),
        }
    }
}

impl ObjectClass {
    /// A copy with the same content.
    pub fn copy(&self) -> (r: Self)
        ensures
            r@ == self@,
    {
        ObjectClass {
            oid: copy_string(&self.oid),
            names: copy_strings(&self.names),
            first_name: copy_string(&self.first_name),
            sup: copy_strings(&self.sup),
            kind: self.kind,
            must: copy_strings(&self.must),
            may: copy_strings(&self.may),
        }
    }
}

/// An attribute (or objectClass) candidate to show in a picker.
pub struct PickerEntry {
    /// lowercase
    pub attr_name: String,
    pub is_must: bool,
    /// short display label
    pub syntax: String,
    /// SINGLE-VALUE constraint
    pub single_value: bool,
}

pub struct PickerEntryView {
    pub attr_name: Seq<char>,
    pub is_must: bool,
    pub syntax: Seq<char>,
    pub single_value: bool,
}

impl View for PickerEntry {
    type V = PickerEntryView;

    open spec fn view(&self) -> PickerEntryView {
        PickerEntryView {
            attr_name: self.attr_name@,
            is_must: self.is_must,
            syntax: self.syntax@,
            single_value: self.single_value,
        }
    }
}

pub open spec fn entry_views(v: Seq<PickerEntry>) -> Seq<PickerEntryView> {
    v.map_values(|e: PickerEntry| e@)
}

impl PickerEntry {
    /// A copy with the same content.
    pub fn copy(&self) -> (r: Self)
        ensures
            r@ == self@,
    {
        PickerEntry {
            attr_name: copy_string(&self.attr_name),
            is_must: self.is_must,
            syntax: copy_string(&self.syntax),
            single_value: self.single_value,
        }
    }
}

} // verus!
