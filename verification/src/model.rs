//! The decoded record types and their mathematical models.

use vstd::prelude::*;

verus! {

/// Intermediate result of decoding the class-name token: either a bare class
/// name, or a class name composed with its parent's identifier and name.
/// The text fields are views into the line they were decoded from.
#[derive(Debug)]
pub struct ClassNameInfo<'a> {
    pub class_name: &'a str,
    pub parent_id: Option<i32>,
    pub parent_class_name: Option<&'a str>,
}

/// One successfully decoded line: a single traced function call event.
/// All text fields are zero-copy views into the caller's line buffer.
#[derive(Debug)]
pub struct DecodedRecord<'a> {
    pub id: i32,
    pub parent_id: Option<i32>,
    pub parent_class_name: Option<&'a str>,
    pub class_name: &'a str,
    pub function_name: &'a str,
    pub state_fields: Vec<&'a str>,
    pub arg_fields: Vec<&'a str>,
}

/// Mathematical model of a decoded class-name token.
#[verifier::ext_equal]
pub ghost struct ClassModel {
    pub class_name: Seq<char>,
    pub parent_id: Option<int>,
    pub parent_class_name: Option<Seq<char>>,
}

/// Mathematical model of a decoded record.
#[verifier::ext_equal]
pub ghost struct RecordModel {
    pub id: int,
    pub parent_id: Option<int>,
    pub parent_class_name: Option<Seq<char>>,
    pub class_name: Seq<char>,
    pub function_name: Seq<char>,
    pub state_fields: Seq<Seq<char>>,
    pub arg_fields: Seq<Seq<char>>,
}

/// The character sequences denoted by a sequence of text views.
pub open spec fn views_of(fields: Seq<&str>) -> Seq<Seq<char>> {
    fields.map_values(|f: &str| f@)
}

/// The model of an optional text view.
pub open spec fn view_of_opt(field: Option<&str>) -> Option<Seq<char>> {
    match field {
        Some(f) => Some(f@),
        None => None,
    }
}

/// Appending a view appends its character sequence to the model.
pub proof fn lemma_views_of_push(fields: Seq<&str>, f: &str)
    ensures
        views_of(fields.push(f)) == views_of(fields).push(f@),
{
    assert(views_of(fields.push(f)) =~= views_of(fields).push(f@));
}

impl<'a> View for ClassNameInfo<'a> {
    type V = ClassModel;

    open spec fn view(&self) -> ClassModel {
        ClassModel {
            class_name: self.class_name@,
            parent_id: match self.parent_id {
                Some(p) => Some(p as int),
                None => None,
            },
            parent_class_name: view_of_opt(self.parent_class_name),
        }
    }
}

impl<'a> View for DecodedRecord<'a> {
    type V = RecordModel;

    open spec fn view(&self) -> RecordModel {
        RecordModel {
            id: self.id as int,
            parent_id: match self.parent_id {
                Some(p) => Some(p as int),
                None => None,
            },
            parent_class_name: view_of_opt(self.parent_class_name),
            class_name: self.class_name@,
            function_name: self.function_name@,
            state_fields: views_of(self.state_fields@),
            arg_fields: views_of(self.arg_fields@),
        }
    }
}

} // verus!
