//! The decisions behind reading a `TwoSidedVec` back from its serialized form: a struct
//! with a `back` field (the back, nearest the middle first) and a `front` field.
use vstd::prelude::*;
use vstd::string::StringSliceAdditionalSpecFns;

verus! {

/// One of the two fields of the serialized form.
#[derive(Clone, Copy, Debug, PartialEq, Eq, Structural)]
pub enum Field {
    Back,
    Front,
}

/// Why a serialized form was refused.
#[derive(Clone, Copy, Debug, PartialEq, Eq, Structural)]
pub enum FieldError {
    /// A field name other than `back` and `front`.
    UnknownField,
    /// A field came a second time; the error names the field given here.
    DuplicateField(Field),
    /// The field given here never came.
    MissingField(Field),
}

/// The UTF-8 bytes of a field's name.
pub open spec fn field_name_bytes(field: Field) -> Seq<u8> {
    match field {
        Field::Back => seq![98u8, 97u8, 99u8, 107u8],
        Field::Front => seq![102u8, 114u8, 111u8, 110u8, 116u8],
    }
}

impl Field {
    /// The field whose name is `name`, or `UnknownField`.
    pub fn from_name(name: &str) -> (r: Result<Field, FieldError>)
        ensures
            name.spec_bytes() == field_name_bytes(Field::Back) ==> r == Ok::<Field, FieldError>(
                Field::Back,
            ),
            name.spec_bytes() == field_name_bytes(Field::Front) ==> r == Ok::<Field, FieldError>(
                Field::Front,
            ),
            name.spec_bytes() != field_name_bytes(Field::Back) && name.spec_bytes()
                != field_name_bytes(Field::Front) ==> r == Err::<Field, FieldError>(
                FieldError::UnknownField,
            ),
    {
        let b = name.as_bytes();
        if b.len() == 4 && b[0] == 98u8 && b[1] == 97u8 && b[2] == 99u8 && b[3] == 107u8 {
            assert(b@ =~= field_name_bytes(Field::Back));
            Ok(Field::Back)
        } else if b.len() == 5 && b[0] == 102u8 && b[1] == 114u8 && b[2] == 111u8 && b[3] == 110u8
            && b[4] == 116u8 {
            assert(b@ =~= field_name_bytes(Field::Front));
            Ok(Field::Front)
        } else {
            Err(FieldError::UnknownField)
        }
    }

    /// The field's name.
    pub fn name(&self) -> (r: &'static str)
        ensures
            *self == Field::Back ==> r@ == "back"@,
            *self == Field::Front ==> r@ == "front"@,
    {
        match self {
            Field::Back => "back",
            Field::Front => "front",
        }
    }
}

/// Which fields of the serialized form have been read so far.
pub struct FieldsSeen {
    pub seen_back: bool,
    pub seen_front: bool,
}

impl FieldsSeen {
    /// No field read yet.
    pub fn new() -> (r: Self)
        ensures
            !r.seen_back,
            !r.seen_front,
    {
        FieldsSeen { seen_back: false, seen_front: false }
    }

    /// Decides on the next key: `Ok(field)` when that field's elements are to be read now,
    /// and an error for a field that came before. A repeated `front` is reported under the
    /// name `back`.
    pub fn visit_key(&mut self, field: Field) -> (r: Result<Field, FieldError>)
        ensures
            field == Field::Back && old(self).seen_back ==> r == Err::<Field, FieldError>(
                FieldError::DuplicateField(Field::Back),
            ) && *final(self) == *old(self),
            field == Field::Front && old(self).seen_front ==> r == Err::<Field, FieldError>(
                FieldError::DuplicateField(Field::Back),
            ) && *final(self) == *old(self),
            field == Field::Back && !old(self).seen_back ==> r == Ok::<Field, FieldError>(
                Field::Back,
            ) && final(self).seen_back && final(self).seen_front == old(self).seen_front,
            field == Field::Front && !old(self).seen_front ==> r == Ok::<Field, FieldError>(
                Field::Front,
            ) && final(self).seen_front && final(self).seen_back == old(self).seen_back,
    {
        match field {
            Field::Back => {
                if self.seen_back {
                    return Err(FieldError::DuplicateField(Field::Back));
                }
                self.seen_back = true;
                Ok(Field::Back)
            },
            Field::Front => {
                if self.seen_front {
                    return Err(FieldError::DuplicateField(Field::Back));
                }
                self.seen_front = true;
                Ok(Field::Front)
            },
        }
    }

    /// Decides at the end of the keys: both fields must have come, `back` is asked for first.
    pub fn finish(&self) -> (r: Result<(), FieldError>)
        ensures
            !self.seen_back ==> r == Err::<(), FieldError>(FieldError::MissingField(Field::Back)),
            self.seen_back && !self.seen_front ==> r == Err::<(), FieldError>(
                FieldError::MissingField(Field::Front),
            ),
            self.seen_back && self.seen_front ==> r == Ok::<(), FieldError>(()),
    {
        if !self.seen_back {
            return Err(FieldError::MissingField(Field::Back));
        }
        if !self.seen_front {
            return Err(FieldError::MissingField(Field::Front));
        }
        Ok(())
    }
}

} // verus!
