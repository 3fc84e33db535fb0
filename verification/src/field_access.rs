//! What accessing a named field of a value compiles to.
use vstd::prelude::*;

verus! {

broadcast use vstd::std_specs::vec::group_vec_axioms;

/// How a struct's or variant's list of fields ends.
#[derive(Debug, Clone, Copy, PartialEq, Eq, Structural)]
pub enum Rest {
    /// The list ends in nil after the last field.
    Nil,
    /// The last field is the rest of the list.
    Spread,
    /// The last field is the rest of the list, and may be absent.
    Optional,
}

/// The type of a value whose field is accessed, as field access reads it.
#[derive(Debug, Clone)]
pub enum FieldTarget {
    /// A struct with its field names in order.
    Struct { fields: Vec<String>, rest: Rest },
    /// An enum variant, with its field names in order where it has fields.
    Variant { fields: Option<Vec<String>>, rest: Rest },
    Pair,
    Bytes,
    Bytes32,
    /// Any other type.
    Other,
}

/// What a field access reads.
#[derive(Debug, Clone, Copy, PartialEq, Eq, Structural)]
pub enum FieldAccess {
    /// Item `index` of the struct's list; the rest of the list from there
    /// when `tail`; of an optional type when `optional`.
    StructField { index: usize, tail: bool, optional: bool },
    /// The same, in the list that follows the variant's discriminant.
    VariantField { index: usize, tail: bool, optional: bool },
    /// The first item of a pair.
    First,
    /// The rest of a pair.
    Rest,
    /// The length of an atom, as an integer.
    Length,
    /// The struct or variant has no field of that name.
    UnknownField,
    /// The type has no field of that name.
    InvalidFieldAccess,
}

/// The index of the first of `fields` named `name`.
pub open spec fn index_of_name(fields: Seq<String>, name: Seq<char>) -> Option<nat>
    decreases fields.len(),
{
    if fields.len() == 0 {
        None
    } else if fields[0]@ == name {
        Some(0)
    } else {
        match index_of_name(fields.drop_first(), name) {
            Some(i) => Some(i + 1),
            None => None,
        }
    }
}

/// The field `name` of a list `fields` ended by `rest`: the last field takes
/// the rest of the list unless the list ends in nil, and is optional where
/// the rest is.
pub open spec fn field_in(fields: Seq<String>, rest: Rest, name: Seq<char>, variant: bool) -> FieldAccess {
    match index_of_name(fields, name) {
        Some(i) => {
            let last = i == fields.len() - 1;
            let tail = last && rest != Rest::Nil;
            let optional = last && rest == Rest::Optional;
            if variant {
                FieldAccess::VariantField { index: i as usize, tail, optional }
            } else {
                FieldAccess::StructField { index: i as usize, tail, optional }
            }
        },
        None => FieldAccess::UnknownField,
    }
}

/// What accessing `name` on a value of `target` reads: a named field of a
/// struct or variant, `first` or `rest` of a pair, the `length` of bytes.
pub open spec fn field_access_spec(target: FieldTarget, name: Seq<char>) -> FieldAccess {
    match target {
        FieldTarget::Struct { fields, rest } => field_in(fields@, rest, name, false),
        FieldTarget::Variant { fields, rest } => match fields {
            Some(fields) => field_in(fields@, rest, name, true),
            None => field_in(seq![], rest, name, true),
        },
        FieldTarget::Pair => if name == "first"@ {
            FieldAccess::First
        } else if name == "rest"@ {
            FieldAccess::Rest
        } else {
            FieldAccess::InvalidFieldAccess
        },
        FieldTarget::Bytes | FieldTarget::Bytes32 => if name == "length"@ {
            FieldAccess::Length
        } else {
            FieldAccess::InvalidFieldAccess
        },
        FieldTarget::Other => FieldAccess::InvalidFieldAccess,
    }
}

proof fn lemma_index_of_name_first(fields: Seq<String>, name: Seq<char>, i: int)
    requires
        0 <= i <= fields.len(),
        forall|j: int| 0 <= j < i ==> #[trigger] fields[j]@ != name,
        i < fields.len() ==> fields[i]@ == name,
    ensures
        index_of_name(fields, name) == if i < fields.len() {
            Some(i as nat)
        } else {
            Option::<nat>::None
        },
    decreases fields.len(),
{
    if fields.len() > 0 && i > 0 {
        let rest = fields.drop_first();
        assert(fields[0]@ != name);
        assert forall|j: int| 0 <= j < i - 1 implies #[trigger] rest[j]@ != name by {
            assert(rest[j] == fields[j + 1]);
        }
        if i < fields.len() {
            assert(rest[i - 1] == fields[i]);
        }
        lemma_index_of_name_first(rest, name, i - 1);
    }
}

/// A named field of a struct or a variant is read at the position of the
/// first field of that name, as the rest of the list when it is the last
/// field and the list does not end in nil, and as optional exactly when it
/// is the last field and the rest is optional: a struct and a variant with
/// the same fields read it alike.
pub proof fn law_named_field(fields: Vec<String>, rest: Rest, name: Seq<char>, i: int)
    requires
        0 <= i < fields@.len(),
        fields@[i]@ == name,
        forall|j: int| 0 <= j < i ==> #[trigger] fields@[j]@ != name,
    ensures
        field_access_spec((FieldTarget::Struct { fields, rest }), name) == (FieldAccess::StructField {
            index: i as usize,
            tail: i == fields@.len() - 1 && rest != Rest::Nil,
            optional: i == fields@.len() - 1 && rest == Rest::Optional,
        }),
        field_access_spec((FieldTarget::Variant { fields: Some(fields), rest }), name)
            == (FieldAccess::VariantField {
            index: i as usize,
            tail: i == fields@.len() - 1 && rest != Rest::Nil,
            optional: i == fields@.len() - 1 && rest == Rest::Optional,
        }),
{
    lemma_index_of_name_first(fields@, name, i);
}

/// A struct or variant with no field of the name reads an unknown field.
pub proof fn law_missing_field(fields: Vec<String>, rest: Rest, name: Seq<char>)
    requires
        forall|j: int| 0 <= j < fields@.len() ==> #[trigger] fields@[j]@ != name,
    ensures
        field_access_spec((FieldTarget::Struct { fields, rest }), name) == FieldAccess::UnknownField,
        field_access_spec((FieldTarget::Variant { fields: Some(fields), rest }), name) == FieldAccess::UnknownField,
        field_access_spec((FieldTarget::Variant { fields: Option::<Vec<String>>::None, rest }), name)
            == FieldAccess::UnknownField,
{
    lemma_index_of_name_first(fields@, name, fields@.len() as int);
}

/// A pair has the fields `first` and `rest`, bytes and 32 bytes have a
/// `length`, and any other name on them, or any name on another type, is an
/// invalid access.
pub proof fn law_builtin_fields(name: Seq<char>)
    ensures
        field_access_spec(FieldTarget::Pair, "first"@) == FieldAccess::First,
        field_access_spec(FieldTarget::Pair, "rest"@) == FieldAccess::Rest,
        name != "first"@ && name != "rest"@ ==> field_access_spec(FieldTarget::Pair, name)
            == FieldAccess::InvalidFieldAccess,
        field_access_spec(FieldTarget::Bytes, "length"@) == FieldAccess::Length,
        field_access_spec(FieldTarget::Bytes32, "length"@) == FieldAccess::Length,
        name != "length"@ ==> field_access_spec(FieldTarget::Bytes, name) == FieldAccess::InvalidFieldAccess,
        name != "length"@ ==> field_access_spec(FieldTarget::Bytes32, name) == FieldAccess::InvalidFieldAccess,
        field_access_spec(FieldTarget::Other, name) == FieldAccess::InvalidFieldAccess,
{
    reveal_strlit("first");
    reveal_strlit("rest");
    assert("rest"@.len() != "first"@.len());
}

/// Whether `a` spells `b`.
pub fn same_text(a: &String, b: &str) -> (result: bool)
    ensures
        result == (a@ == b@),
{
    let s = a.as_str();
    let n = s.unicode_len();
    if n != b.unicode_len() {
        return false;
    }
    let mut i: usize = 0;
    while i < n
        invariant
            0 <= i <= n,
            n == a@.len(),
            n == b@.len(),
            s@ == a@,
            forall|j: int| 0 <= j < i ==> a@[j] == b@[j],
        decreases n - i,
    {
        if s.get_char(i) != b.get_char(i) {
            return false;
        }
        i = i + 1;
    }
    assert(a@ =~= b@);
    true
}

pub open spec fn shifted(found: Option<nat>, by: nat) -> Option<nat> {
    match found {
        Some(k) => Some(k + by),
        None => None,
    }
}

fn index_of_name_in(fields: &Vec<String>, name: &String) -> (result: Option<usize>)
    ensures
        match index_of_name(fields@, name@) {
            Some(i) => result == Some(i as usize) && i < fields@.len(),
            None => result is None,
        },
{
    let mut i: usize = 0;
    assert(fields@.skip(0) =~= fields@);
    while i < fields.len()
        invariant
            0 <= i <= fields.len(),
            index_of_name(fields@, name@) == shifted(index_of_name(fields@.skip(i as int), name@), i as nat),
        decreases fields.len() - i,
    {
        proof {
            lemma_index_of_name_skip(fields@, name@, i as int);
        }
        if same_text(&fields[i], name.as_str()) {
            return Some(i);
        }
        i = i + 1;
    }
    proof {
        assert(fields@.skip(i as int) =~= Seq::<String>::empty());
    }
    None
}

proof fn lemma_index_of_name_skip(fields: Seq<String>, name: Seq<char>, i: int)
    requires
        0 <= i < fields.len(),
    ensures
        fields.skip(i)[0] == fields[i],
        fields.skip(i).drop_first() == fields.skip(i + 1),
{
    assert(fields.skip(i).drop_first() =~= fields.skip(i + 1));
}

fn field_in_list(fields: &Vec<String>, rest: Rest, name: &String, variant: bool) -> (result: FieldAccess)
    ensures
        result == field_in(fields@, rest, name@, variant),
{
    match index_of_name_in(fields, name) {
        Some(index) => {
            let last = index == fields.len() - 1;
            let tail = last && rest != Rest::Nil;
            let optional = last && rest == Rest::Optional;
            if variant {
                FieldAccess::VariantField { index, tail, optional }
            } else {
                FieldAccess::StructField { index, tail, optional }
            }
        },
        None => FieldAccess::UnknownField,
    }
}

/// What accessing `field` on a value of `target` reads: the named field of
/// a struct or variant (unknown where it has none of that name), `first` or
/// `rest` of a pair, the `length` of bytes or of 32 bytes; any other access
/// is invalid.
pub fn field_access(target: &FieldTarget, field: &String) -> (result: FieldAccess)
    ensures
        result == field_access_spec(*target, field@),
{
    match target {
        FieldTarget::Struct { fields, rest } => field_in_list(fields, *rest, field, false),
        FieldTarget::Variant { fields, rest } => match fields {
            Some(fields) => field_in_list(fields, *rest, field, true),
            None => {
                let empty: Vec<String> = Vec::new();
                assert(empty@ =~= seq![]);
                field_in_list(&empty, *rest, field, true)
            },
        },
        FieldTarget::Pair => {
            if same_text(field, "first") {
                FieldAccess::First
            } else if same_text(field, "rest") {
                FieldAccess::Rest
            } else {
                FieldAccess::InvalidFieldAccess
            }
        },
        FieldTarget::Bytes | FieldTarget::Bytes32 => {
            if same_text(field, "length") {
                FieldAccess::Length
            } else {
                FieldAccess::InvalidFieldAccess
            }
        },
        FieldTarget::Other => FieldAccess::InvalidFieldAccess,
    }
}

} // verus!
