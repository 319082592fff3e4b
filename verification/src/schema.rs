use vstd::multiset::Multiset;
use vstd::prelude::*;
use vstd::string::StringExecFns;

use crate::codec::{decoded_text, push_char, spec_encode, wire_valid, Encoding};
use crate::items::{spec_join, spec_split};
use crate::stringify::{
    all_digits, dec_digits, lemma_dec_digits_value, spec_int_string, spec_parse_signed,
    spec_parse_unsigned, spec_signed_val, SbStringTo, SbToString,
};

verus! {

/// The declared type of a schema field.
///
/// `StrList` is only valid on a flatten field.
#[derive(Clone, Copy, PartialEq, Eq, Structural, Debug)]
pub enum FieldType {
    Str,
    U8,
    U16,
    U32,
    U64,
    I8,
    I16,
    I32,
    I64,
    StrList,
}

/// A runtime field value, one variant per supported field type.
#[derive(Clone, PartialEq, Eq, Debug)]
pub enum FieldValue {
    Str(String),
    U8(u8),
    U16(u16),
    U32(u32),
    U64(u64),
    I8(i8),
    I16(i16),
    I32(i32),
    I64(i64),
    StrList(Vec<String>),
}

/// The mathematical view of a field value.
pub enum FieldValueView {
    Str(Seq<char>),
    U8(u8),
    U16(u16),
    U32(u32),
    U64(u64),
    I8(i8),
    I16(i16),
    I32(i32),
    I64(i64),
    StrList(Seq<Seq<char>>),
}

impl View for FieldValue {
    type V = FieldValueView;

    open spec fn view(&self) -> FieldValueView {
        match self {
            FieldValue::Str(s) => FieldValueView::Str(s@),
            FieldValue::U8(x) => FieldValueView::U8(*x),
            FieldValue::U16(x) => FieldValueView::U16(*x),
            FieldValue::U32(x) => FieldValueView::U32(*x),
            FieldValue::U64(x) => FieldValueView::U64(*x),
            FieldValue::I8(x) => FieldValueView::I8(*x),
            FieldValue::I16(x) => FieldValueView::I16(*x),
            FieldValue::I32(x) => FieldValueView::I32(*x),
            FieldValue::I64(x) => FieldValueView::I64(*x),
            FieldValue::StrList(l) => FieldValueView::StrList(l.deep_view()),
        }
    }
}

impl DeepView for FieldValue {
    type V = FieldValueView;

    open spec fn deep_view(&self) -> FieldValueView {
        self.view()
    }
}

/// A declared field: its one-byte identifier, name and type, and whether it
/// is the schema's flatten field (the identifier is ignored on that one).
#[derive(Clone, PartialEq, Eq, Debug)]
pub struct FieldDef {
    pub id: u8,
    pub name: String,
    pub ty: FieldType,
    pub flatten: bool,
}

/// A schema-construction failure.
#[derive(Clone, Copy, PartialEq, Eq, Structural, Debug)]
pub enum SchemaError {
    /// Two fixed fields (or two variants) declare the same identifier.
    DuplicateIdentifier,
    /// A flatten field is not last, not a string list, appears twice, or a
    /// string list stands on a non-flatten field.
    InvalidFlatten,
}

/// A decode failure.
#[derive(Clone, Copy, PartialEq, Eq, Structural, Debug)]
pub enum DecodeError {
    /// The wire text has odd length, a non-digit character, or a numeral
    /// outside the table.
    MalformedNumeral,
    /// The decoded item count differs from what the schema declares.
    ArityMismatch,
    /// A decoded item could not be parsed into its field's declared type.
    FieldParseError,
    /// A union's decoded identifier matches no declared variant.
    UnknownTag,
}

/// The text that value `v` writes on the wire when the field is declared with
/// type `ty`: strings verbatim, integers as canonical decimal text; `None` on
/// a type mismatch or on a string list (which never stringifies as one item).
pub open spec fn spec_stringify(v: FieldValueView, ty: FieldType) -> Option<Seq<char>> {
    match (v, ty) {
        (FieldValueView::Str(s), FieldType::Str) => Some(s),
        (FieldValueView::U8(x), FieldType::U8) => Some(dec_digits(x as nat)),
        (FieldValueView::U16(x), FieldType::U16) => Some(dec_digits(x as nat)),
        (FieldValueView::U32(x), FieldType::U32) => Some(dec_digits(x as nat)),
        (FieldValueView::U64(x), FieldType::U64) => Some(dec_digits(x as nat)),
        (FieldValueView::I8(x), FieldType::I8) => Some(spec_int_string(x as int)),
        (FieldValueView::I16(x), FieldType::I16) => Some(spec_int_string(x as int)),
        (FieldValueView::I32(x), FieldType::I32) => Some(spec_int_string(x as int)),
        (FieldValueView::I64(x), FieldType::I64) => Some(spec_int_string(x as int)),
        _ => None,
    }
}

/// The value that item text `s` parses to under field type `ty`; `None` when
/// the text does not denote an in-range value of that type.
pub open spec fn spec_parse_field(s: Seq<char>, ty: FieldType) -> Option<FieldValueView> {
    match ty {
        FieldType::Str => Some(FieldValueView::Str(s)),
        FieldType::U8 => match spec_parse_unsigned(s, u8::MAX as int) {
            Some(v) => Some(FieldValueView::U8(v as u8)),
            None => None,
        },
        FieldType::U16 => match spec_parse_unsigned(s, u16::MAX as int) {
            Some(v) => Some(FieldValueView::U16(v as u16)),
            None => None,
        },
        FieldType::U32 => match spec_parse_unsigned(s, u32::MAX as int) {
            Some(v) => Some(FieldValueView::U32(v as u32)),
            None => None,
        },
        FieldType::U64 => match spec_parse_unsigned(s, u64::MAX as int) {
            Some(v) => Some(FieldValueView::U64(v as u64)),
            None => None,
        },
        FieldType::I8 => match spec_parse_signed(s, i8::MIN as int, i8::MAX as int) {
            Some(v) => Some(FieldValueView::I8(v as i8)),
            None => None,
        },
        FieldType::I16 => match spec_parse_signed(s, i16::MIN as int, i16::MAX as int) {
            Some(v) => Some(FieldValueView::I16(v as i16)),
            None => None,
        },
        FieldType::I32 => match spec_parse_signed(s, i32::MIN as int, i32::MAX as int) {
            Some(v) => Some(FieldValueView::I32(v as i32)),
            None => None,
        },
        FieldType::I64 => match spec_parse_signed(s, i64::MIN as int, i64::MAX as int) {
            Some(v) => Some(FieldValueView::I64(v as i64)),
            None => None,
        },
        FieldType::StrList => None,
    }
}

/// Render one field value as its wire item text.
fn stringify_value(v: &FieldValue, ty: FieldType) -> (r: Option<String>)
    ensures
        r is Some <==> spec_stringify(v@, ty) is Some,
        r is Some ==> Some(r->0@) == spec_stringify(v@, ty),
{
    match (v, ty) {
        (FieldValue::Str(s), FieldType::Str) => Some(s.sb_to_string()),
        (FieldValue::U8(x), FieldType::U8) => Some(x.sb_to_string()),
        (FieldValue::U16(x), FieldType::U16) => Some(x.sb_to_string()),
        (FieldValue::U32(x), FieldType::U32) => Some(x.sb_to_string()),
        (FieldValue::U64(x), FieldType::U64) => Some(x.sb_to_string()),
        (FieldValue::I8(x), FieldType::I8) => Some(x.sb_to_string()),
        (FieldValue::I16(x), FieldType::I16) => Some(x.sb_to_string()),
        (FieldValue::I32(x), FieldType::I32) => Some(x.sb_to_string()),
        (FieldValue::I64(x), FieldType::I64) => Some(x.sb_to_string()),
        _ => None,
    }
}

/// Parse one wire item text back into a field value.
fn parse_value(s: &String, ty: FieldType) -> (r: Option<FieldValue>)
    ensures
        r is Some <==> spec_parse_field(s@, ty) is Some,
        r is Some ==> Some(r->0@) == spec_parse_field(s@, ty),
{
    match ty {
        FieldType::Str => {
            let v: Option<String> = s.sb_string_to();
            match v {
                Some(x) => Some(FieldValue::Str(x)),
                None => None,
            }
        },
        FieldType::U8 => {
            let v: Option<u8> = s.sb_string_to();
            match v {
                Some(x) => Some(FieldValue::U8(x)),
                None => None,
            }
        },
        FieldType::U16 => {
            let v: Option<u16> = s.sb_string_to();
            match v {
                Some(x) => Some(FieldValue::U16(x)),
                None => None,
            }
        },
        FieldType::U32 => {
            let v: Option<u32> = s.sb_string_to();
            match v {
                Some(x) => Some(FieldValue::U32(x)),
                None => None,
            }
        },
        FieldType::U64 => {
            let v: Option<u64> = s.sb_string_to();
            match v {
                Some(x) => Some(FieldValue::U64(x)),
                None => None,
            }
        },
        FieldType::I8 => {
            let v: Option<i8> = s.sb_string_to();
            match v {
                Some(x) => Some(FieldValue::I8(x)),
                None => None,
            }
        },
        FieldType::I16 => {
            let v: Option<i16> = s.sb_string_to();
            match v {
                Some(x) => Some(FieldValue::I16(x)),
                None => None,
            }
        },
        FieldType::I32 => {
            let v: Option<i32> = s.sb_string_to();
            match v {
                Some(x) => Some(FieldValue::I32(x)),
                None => None,
            }
        },
        FieldType::I64 => {
            let v: Option<i64> = s.sb_string_to();
            match v {
                Some(x) => Some(FieldValue::I64(x)),
                None => None,
            }
        },
        FieldType::StrList => None,
    }
}

/// The schema declares a flatten field (always the last one).
pub open spec fn spec_has_flatten(fields: Seq<FieldDef>) -> bool {
    fields.len() > 0 && fields.last().flatten
}

/// How many fixed-identifier fields the schema declares.
pub open spec fn spec_fixed_count(fields: Seq<FieldDef>) -> int {
    if spec_has_flatten(fields) {
        fields.len() - 1
    } else {
        fields.len() as int
    }
}

/// A well-formed schema: fixed identifiers strictly ascending (hence unique),
/// at most one flatten field, standing last, of string-list type, and the
/// string-list type on no other field.
pub open spec fn schema_wf(fields: Seq<FieldDef>) -> bool {
    &&& forall|i: int, j: int|
        0 <= i < j < spec_fixed_count(fields) ==> (#[trigger] fields[i].id) < (
        #[trigger] fields[j].id)
    &&& forall|i: int|
        0 <= i < spec_fixed_count(fields) ==> !(#[trigger] fields[i]).flatten && fields[i].ty
            != FieldType::StrList
    &&& spec_has_flatten(fields) ==> fields.last().ty == FieldType::StrList
}

/// Flatten declarations in `fields` are lawful: a flatten field stands only
/// last and is a string list, and no other field is a string list.
pub open spec fn flatten_ok(fields: Seq<FieldDef>) -> bool {
    forall|i: int|
        0 <= i < fields.len() ==> {
            &&& ((#[trigger] fields[i]).flatten ==> i == fields.len() - 1 && fields[i].ty
                == FieldType::StrList)
            &&& (!fields[i].flatten ==> fields[i].ty != FieldType::StrList)
        }
}

/// No two fixed (non-flatten) fields of `fields` share an identifier.
pub open spec fn fixed_ids_unique(fields: Seq<FieldDef>) -> bool {
    forall|i: int, j: int|
        0 <= i < j < fields.len() && !(#[trigger] fields[i]).flatten
            && !(#[trigger] fields[j]).flatten ==> fields[i].id != fields[j].id
}

/// The fixed fields of `out` are sorted by strictly ascending identifier.
pub open spec fn fixed_sorted(out: Seq<FieldDef>) -> bool {
    forall|i: int, j: int|
        0 <= i < j < out.len() ==> (#[trigger] out[i]).id < (#[trigger] out[j]).id
}

/// An identifier-to-field mapping for one record type, fixed fields held in
/// ascending identifier order, an optional flatten field last.
pub struct RecordSchema {
    fields: Vec<FieldDef>,
}

impl RecordSchema {
    /// The declared fields, fixed fields in ascending identifier order.
    pub closed spec fn spec_fields(&self) -> Seq<FieldDef> {
        self.fields@
    }

    /// Validate and build a record schema from its declared fields. The fixed
    /// fields are put into ascending identifier order; construction fails on a
    /// duplicate identifier or an ill-declared flatten field.
    #[verifier::loop_isolation(false)]
    #[verifier::rlimit(100)]
    pub fn new(declared: Vec<FieldDef>) -> (r: Result<RecordSchema, SchemaError>)
        ensures
            match r {
                Ok(schema) => {
                    &&& flatten_ok(declared@)
                    &&& fixed_ids_unique(declared@)
                    &&& schema.spec_fields().to_multiset() == declared@.to_multiset()
                    &&& schema_wf(schema.spec_fields())
                    &&& spec_has_flatten(schema.spec_fields()) == spec_has_flatten(declared@)
                    &&& schema.spec_fields().len() == declared@.len()
                },
                Err(e) => {
                    &&& !flatten_ok(declared@) || !fixed_ids_unique(declared@)
                    &&& (e == SchemaError::InvalidFlatten <==> !flatten_ok(declared@))
                },
            },
    {
        broadcast use vstd::seq_lib::group_to_multiset_ensures;
        broadcast use vstd::seq_lib::lemma_multiset_commutative;

        let ghost orig = declared@;
        let n = declared.len();
        let mut i: usize = 0;
        while i < n
            invariant
                n == declared@.len(),
                i <= n,
                forall|k: int|
                    0 <= k < i ==> {
                        &&& ((#[trigger] declared@[k]).flatten ==> k == n - 1 && declared@[k].ty
                            == FieldType::StrList)
                        &&& (!declared@[k].flatten ==> declared@[k].ty != FieldType::StrList)
                    },
            decreases n - i,
        {
            let f = &declared[i];
            if f.flatten {
                if i + 1 != n || !matches!(f.ty, FieldType::StrList) {
                    return Err(SchemaError::InvalidFlatten);
                }
            } else {
                if matches!(f.ty, FieldType::StrList) {
                    return Err(SchemaError::InvalidFlatten);
                }
            }
            i += 1;
        }
        assert(flatten_ok(orig));
        let mut rest = declared;
        let flat: Option<FieldDef> = if n > 0 && rest[n - 1].flatten {
            rest.pop()
        } else {
            None
        };
        let ghost fixed = rest@;
        proof {
            if flat is Some {
                assert(orig =~= fixed.push(flat->0));
            } else {
                assert(orig =~= fixed);
            }
            assert(forall|k: int| 0 <= k < fixed.len() ==> !(#[trigger] fixed[k]).flatten);
        }
        let mut out: Vec<FieldDef> = Vec::new();
        let mut i: usize = 0;
        while rest.len() > 0
            invariant
                fixed.len() == i + rest@.len(),
                rest@ =~= fixed.skip(i as int),
                i <= fixed.len(),
                forall|k: int| 0 <= k < fixed.len() ==> !(#[trigger] fixed[k]).flatten,
                forall|k: int| 0 <= k < fixed.len() ==> (#[trigger] fixed[k]).ty != FieldType::StrList,
                fixed.len() <= n,
                fixed_sorted(out@),
                forall|k: int| 0 <= k < out@.len() ==> !(#[trigger] out@[k]).flatten,
                forall|k: int| 0 <= k < out@.len() ==> (#[trigger] out@[k]).ty != FieldType::StrList,
                out@.to_multiset() == fixed.take(i as int).to_multiset(),
                out@.len() == i,
                forall|k1: int, k2: int|
                    0 <= k1 < k2 < i ==> (#[trigger] fixed[k1]).id != (#[trigger] fixed[k2]).id,
            decreases rest@.len(),
        {
            proof {
                assert(rest@[0] == fixed[i as int]);
            }
            let f = rest.remove(0);
            let mut j: usize = 0;
            while j < out.len() && out[j].id < f.id
                invariant
                    j <= out@.len(),
                    forall|k: int| 0 <= k < j ==> (#[trigger] out@[k]).id < f.id,
                decreases out@.len() - j,
            {
                j += 1;
            }
            if j < out.len() && out[j].id == f.id {
                proof {
                    // the equal-identifier field already placed came from an
                    // earlier declared position
                    assert(out@.contains(out@[j as int]));
                    vstd::seq_lib::to_multiset_contains(out@, out@[j as int]);
                    vstd::seq_lib::to_multiset_contains(fixed.take(i as int), out@[j as int]);
                    assert(out@.to_multiset().count(out@[j as int]) > 0);
                    assert(fixed.take(i as int).contains(out@[j as int]));
                    let e = choose|e: int|
                        0 <= e < fixed.take(i as int).len() && fixed.take(i as int)[e] == out@[j as int];
                    assert(fixed[e] == out@[j as int]);
                    assert(orig[e] == fixed[e] && orig[i as int] == fixed[i as int]);
                    assert(!fixed_ids_unique(orig));
                }
                return Err(SchemaError::DuplicateIdentifier);
            }
            proof {
                assert(forall|k: int|
                    j <= k < out@.len() ==> (#[trigger] out@[k]).id > f.id) by {
                    if j < out@.len() {
                        assert(out@[j as int].id >= f.id);
                        assert(out@[j as int].id != f.id);
                    }
                }
                // no already-placed field shares f's identifier, so the ids of
                // the processed prefix stay pairwise distinct
                assert forall|k1: int| 0 <= k1 < i implies (#[trigger] fixed[k1]).id
                    != fixed[i as int].id by {
                    assert(fixed.take(i as int)[k1] == fixed[k1]);
                    assert(fixed.take(i as int).contains(fixed[k1]));
                    vstd::seq_lib::to_multiset_contains(fixed.take(i as int), fixed[k1]);
                    vstd::seq_lib::to_multiset_contains(out@, fixed[k1]);
                    assert(fixed.take(i as int).to_multiset().count(fixed[k1]) > 0);
                    assert(out@.contains(fixed[k1]));
                    let m = choose|m: int| 0 <= m < out@.len() && out@[m] == fixed[k1];
                    assert(out@[m].id != f.id);
                }
                assert(out@.insert(j as int, f) =~= out@.take(j as int) + seq![f] + out@.skip(
                    j as int,
                ));
                lemma_insert_multiset(out@, f, j as int);
                assert(fixed.take(i as int).push(f) =~= fixed.take(i as int + 1));
            }
            out.insert(j, f);
            i += 1;
            proof {
                assert(rest@ =~= fixed.skip(i as int));
            }
        }
        proof {
            assert(fixed.take(i as int) =~= fixed);
        }
        let fields = match flat {
            Some(f) => {
                let mut out2 = out;
                out2.push(f);
                out2
            },
            None => out,
        };
        let schema = RecordSchema { fields };
        proof {
            broadcast use vstd::seq_lib::group_to_multiset_ensures;

            assert(schema_wf(schema.fields@));
            assert(fixed_ids_unique(orig));
            if flat is Some {
                assert(schema.fields@ =~= out@.push(flat->0));
                assert(schema.fields@.to_multiset() == orig.to_multiset());
            }
        }
        Ok(schema)
    }
}

/// The string list a value holds, or `None` when it is no string list.
pub open spec fn strlist_of(v: FieldValueView) -> Option<Seq<Seq<char>>> {
    match v {
        FieldValueView::StrList(l) => Some(l),
        _ => None,
    }
}

/// The item texts a record writes on the wire: the fixed field values
/// stringified in schema (ascending identifier) order, then the flatten
/// field's items in list order; `None` when the values do not fit the schema.
pub open spec fn spec_record_items(fields: Seq<FieldDef>, values: Seq<FieldValueView>) -> Option<
    Seq<Seq<char>>,
> {
    if values.len() == fields.len() && (forall|i: int|
        0 <= i < spec_fixed_count(fields) ==> (#[trigger] spec_stringify(
            values[i],
            fields[i].ty,
        )) is Some) && (spec_has_flatten(fields) ==> strlist_of(values.last()) is Some) {
        let fixed = Seq::new(
            spec_fixed_count(fields) as nat,
            |i: int| spec_stringify(values[i], fields[i].ty)->0,
        );
        if spec_has_flatten(fields) {
            Some(fixed + strlist_of(values.last())->0)
        } else {
            Some(fixed)
        }
    } else {
        None
    }
}

/// What encoding a record returns: its item texts joined with the separator
/// and carried by the character codec; `None` when the values do not fit the
/// schema or some character lies outside the alphabet.
pub open spec fn spec_encode_record(fields: Seq<FieldDef>, values: Seq<FieldValueView>) -> Option<
    Seq<char>,
> {
    match spec_record_items(fields, values) {
        Some(items) => spec_encode(spec_join(items)),
        None => None,
    }
}

/// What decoding a record returns: the wire's items parsed back into field
/// values in schema order, trailing items collected into the flatten field;
/// each failure is attributed to its cause.
pub open spec fn spec_decode_record(fields: Seq<FieldDef>, w: Seq<char>) -> Result<
    Seq<FieldValueView>,
    DecodeError,
> {
    if !wire_valid(w) {
        Err(DecodeError::MalformedNumeral)
    } else {
        let items = spec_split(decoded_text(w));
        let k = spec_fixed_count(fields);
        if (spec_has_flatten(fields) && items.len() < k) || (!spec_has_flatten(fields)
            && items.len() != k) {
            Err(DecodeError::ArityMismatch)
        } else if exists|i: int|
            0 <= i < k && (#[trigger] spec_parse_field(items[i], fields[i].ty)) is None {
            Err(DecodeError::FieldParseError)
        } else {
            let fixed = Seq::new(k as nat, |i: int| spec_parse_field(items[i], fields[i].ty)->0);
            if spec_has_flatten(fields) {
                Ok(fixed.push(FieldValueView::StrList(items.skip(k))))
            } else {
                Ok(fixed)
            }
        }
    }
}

impl RecordSchema {
    /// The declared fields, fixed fields in ascending identifier order;
    /// encode takes its values, and decode returns them, in this order.
    pub fn fields(&self) -> (r: &Vec<FieldDef>)
        ensures
            r@ == self.spec_fields(),
    {
        &self.fields
    }

    /// Encode `values` against this schema: stringify each fixed field in
    /// ascending identifier order, append the flatten items, join with the
    /// separator and encode; fails exactly when a value does not fit its
    /// declared type or some character lies outside the alphabet.
    #[verifier::loop_isolation(false)]
    pub fn encode(&self, values: &Vec<FieldValue>) -> (r: Option<String>)
        ensures
            r is Some <==> spec_encode_record(self.spec_fields(), values.deep_view()) is Some,
            r is Some ==> Some(r->0@) == spec_encode_record(
                self.spec_fields(),
                values.deep_view(),
            ),
    {
        let n = self.fields.len();
        if values.len() != n {
            return None;
        }
        let has_flat = n > 0 && self.fields[n - 1].flatten;
        let ghost k_spec = spec_fixed_count(self.fields@);
        let k = if has_flat {
            n - 1
        } else {
            n
        };
        let mut out: Vec<String> = Vec::new();
        let mut i: usize = 0;
        while i < k
            invariant
                i <= k,
                out@.len() == i,
                forall|x: int|
                    0 <= x < i ==> (#[trigger] spec_stringify(
                        values.deep_view()[x],
                        self.fields@[x].ty,
                    )) is Some,
                forall|x: int|
                    0 <= x < i ==> out@[x]@ == spec_stringify(
                        values.deep_view()[x],
                        self.fields@[x].ty,
                    )->0,
            decreases k - i,
        {
            let s = match stringify_value(&values[i], self.fields[i].ty) {
                Some(s) => s,
                None => {
                    proof {
                        assert(spec_stringify(
                            values.deep_view()[i as int],
                            self.fields@[i as int].ty,
                        ) is None);
                    }
                    return None;
                },
            };
            out.push(s);
            i += 1;
        }
        if has_flat {
            match &values[n - 1] {
                FieldValue::StrList(l) => {
                    let mut j: usize = 0;
                    while j < l.len()
                        invariant
                            j <= l@.len(),
                            out@.len() == k + j,
                            forall|x: int|
                                0 <= x < k ==> out@[x]@ == spec_stringify(
                                    values.deep_view()[x],
                                    self.fields@[x].ty,
                                )->0,
                            forall|x: int| 0 <= x < j ==> out@[k + x]@ == l@[x]@,
                        decreases l@.len() - j,
                    {
                        out.push(l[j].clone());
                        j += 1;
                    }
                },
                _ => {
                    proof {
                        assert(strlist_of(values.deep_view().last()) is None);
                    }
                    return None;
                },
            }
        }
        proof {
            assert(out.deep_view() =~= spec_record_items(self.fields@, values.deep_view())->0);
        }
        let mut refs: Vec<&str> = Vec::new();
        let mut i: usize = 0;
        while i < out.len()
            invariant
                i <= out@.len(),
                refs@.len() == i,
                forall|x: int| 0 <= x < i ==> refs@[x]@ == out@[x]@,
            decreases out@.len() - i,
        {
            refs.push(out[i].as_str());
            i += 1;
        }
        let enc = crate::codec::Encoding::new();
        let slice = refs.as_slice();
        proof {
            assert(slice.deep_view() =~= out.deep_view());
        }
        enc.encode_items(slice)
    }

    /// Decode a record wire string against this schema: split it into items,
    /// insist on the declared arity, parse each fixed item into its field's
    /// type in ascending identifier order, and collect trailing items into the
    /// flatten field; each failure names its cause.
    #[verifier::loop_isolation(false)]
    pub fn decode(&self, numbers: &str) -> (r: Result<Vec<FieldValue>, DecodeError>)
        ensures
            match (r, spec_decode_record(self.spec_fields(), numbers@)) {
                (Ok(vals), Ok(spec_vals)) => vals.deep_view() == spec_vals,
                (Err(e), Err(spec_e)) => e == spec_e,
                _ => false,
            },
    {
        let enc = crate::codec::Encoding::new();
        let mut items = match enc.decode_items(numbers) {
            Some(items) => items,
            None => {
                return Err(DecodeError::MalformedNumeral);
            },
        };
        let n = self.fields.len();
        let has_flat = n > 0 && self.fields[n - 1].flatten;
        let k = if has_flat {
            n - 1
        } else {
            n
        };
        if has_flat {
            if items.len() < k {
                return Err(DecodeError::ArityMismatch);
            }
        } else {
            if items.len() != k {
                return Err(DecodeError::ArityMismatch);
            }
        }
        let ghost spec_items = spec_split(decoded_text(numbers@));
        let mut vals: Vec<FieldValue> = Vec::new();
        let mut i: usize = 0;
        while i < k
            invariant
                i <= k,
                vals@.len() == i,
                forall|x: int|
                    0 <= x < i ==> (#[trigger] spec_parse_field(
                        spec_items[x],
                        self.fields@[x].ty,
                    )) is Some,
                forall|x: int|
                    0 <= x < i ==> vals@[x]@ == spec_parse_field(
                        spec_items[x],
                        self.fields@[x].ty,
                    )->0,
            decreases k - i,
        {
            let v = match parse_value(&items[i], self.fields[i].ty) {
                Some(v) => v,
                None => {
                    proof {
                        assert(spec_parse_field(spec_items[i as int], self.fields@[i as int].ty)
                            is None);
                    }
                    return Err(DecodeError::FieldParseError);
                },
            };
            vals.push(v);
            i += 1;
        }
        if has_flat {
            let rest = items.split_off(k);
            proof {
                assert(rest.deep_view() =~= spec_items.skip(k as int));
            }
            vals.push(FieldValue::StrList(rest));
        }
        proof {
            match spec_decode_record(self.fields@, numbers@) {
                Ok(spec_vals) => {
                    assert(vals.deep_view() =~= spec_vals);
                },
                Err(_) => {
                    assert(false);
                },
            }
        }
        Ok(vals)
    }
}

/// A declared union variant: its one-byte identifier, its name, and the
/// record schema of its payload.
pub struct VariantDef {
    pub id: u8,
    pub name: String,
    pub payload: RecordSchema,
}

/// No two variants share an identifier.
pub open spec fn variant_ids_unique(variants: Seq<VariantDef>) -> bool {
    forall|i: int, j: int|
        0 <= i < j < variants.len() ==> (#[trigger] variants[i]).id != (#[trigger] variants[j]).id
}

/// An identifier-to-variant mapping for one tagged-union type.
pub struct UnionSchema {
    variants: Vec<VariantDef>,
}

/// The wire form of a union value: the variant identifier's decimal digits
/// carried as alphabet text, one separator numeral, then the payload record's
/// wire form.
pub open spec fn spec_encode_union(
    variants: Seq<VariantDef>,
    idx: int,
    values: Seq<FieldValueView>,
) -> Option<Seq<char>> {
    if 0 <= idx < variants.len() {
        match spec_encode_record(variants[idx].payload.spec_fields(), values) {
            Some(pw) => Some(
                crate::codec::encoded_text(dec_digits(variants[idx].id as nat)) + seq!['9', '7']
                    + pw,
            ),
            None => None,
        }
    } else {
        None
    }
}

/// Split a union wire into its decoded tag text and the remaining payload
/// wire: numerals are decoded until the first separator numeral; `None` when
/// the wire runs out, or a numeral is malformed, before a separator appears.
pub open spec fn spec_tag_split(w: Seq<char>) -> Option<(Seq<char>, Seq<char>)>
    decreases w.len(),
{
    if w.len() < 2 {
        None
    } else {
        match crate::codec::numeral_val(w[0], w[1]) {
            Some(v) => if v == 97 {
                Some((Seq::empty(), w.skip(2)))
            } else if v < 98 {
                match spec_tag_split(w.skip(2)) {
                    Some(t) => Some((seq![crate::alphabet::alphabet_char(v)] + t.0, t.1)),
                    None => None,
                }
            } else {
                None
            },
            None => None,
        }
    }
}

/// What decoding a union returns: the tag text before the first separator is
/// parsed as a one-byte identifier and matched against the declared variants,
/// and the remaining wire is decoded as the chosen variant's payload record;
/// each failure names its cause.
pub open spec fn spec_decode_union(variants: Seq<VariantDef>, w: Seq<char>) -> Result<
    (int, Seq<FieldValueView>),
    DecodeError,
> {
    match spec_tag_split(w) {
        None => Err(DecodeError::MalformedNumeral),
        Some(t) => match spec_parse_unsigned(t.0, u8::MAX as int) {
            Some(id) => if exists|j: int|
                0 <= j < variants.len() && (#[trigger] variants[j]).id == id {
                let j = choose|j: int| 0 <= j < variants.len() && (#[trigger] variants[j]).id == id;
                match spec_decode_record(variants[j].payload.spec_fields(), t.1) {
                    Ok(vals) => Ok((j, vals)),
                    Err(e) => Err(e),
                }
            } else {
                Err(DecodeError::UnknownTag)
            },
            None => Err(DecodeError::UnknownTag),
        },
    }
}

/// Decode numerals from position `2 * pos` on, appending the decoded symbols
/// to `tag`, until the first separator numeral; returns the numeral position
/// just past that separator.
#[verifier::loop_isolation(false)]
fn scan_tag(numbers: &str, pos: usize, tag: &mut String) -> (r: Result<usize, DecodeError>)
    requires
        2 * pos <= old(tag)@.len() + numbers@.len(),
        2 * pos <= numbers@.len(),
    ensures
        match (r, spec_tag_split(numbers@.skip(2 * pos as int))) {
            (Ok(end), Some(t)) => {
                &&& final(tag)@ == old(tag)@ + t.0
                &&& pos < end
                &&& 2 * end <= numbers@.len()
                &&& t.1 == numbers@.skip(2 * end as int)
            },
            (Err(e), None) => e == DecodeError::MalformedNumeral,
            _ => false,
        },
    decreases numbers@.len() - 2 * pos,
{
    let n = numbers.unicode_len();
    if 2 * pos + 1 >= n {
        return Err(DecodeError::MalformedNumeral);
    }
    let ghost w = numbers@.skip(2 * pos as int);
    proof {
        assert(w[0] == numbers@[2 * pos as int]);
        assert(w[1] == numbers@[2 * pos as int + 1]);
        assert(w.skip(2) =~= numbers@.skip(2 * (pos as int + 1)));
    }
    let hi = numbers.get_char(2 * pos);
    let lo = numbers.get_char(2 * pos + 1);
    let h = match crate::codec::char_to_digit(hi) {
        Some(h) => h,
        None => {
            return Err(DecodeError::MalformedNumeral);
        },
    };
    let l = match crate::codec::char_to_digit(lo) {
        Some(l) => l,
        None => {
            return Err(DecodeError::MalformedNumeral);
        },
    };
    let v = 10 * h + l;
    if v >= 98 {
        return Err(DecodeError::MalformedNumeral);
    }
    if v == 97 {
        proof {
            assert(old(tag)@ + Seq::<char>::empty() =~= old(tag)@);
        }
        return Ok(pos + 1);
    }
    let c = match crate::alphabet::EncodingTable::decode(v) {
        Some(c) => c,
        None => {
            return Err(DecodeError::MalformedNumeral);
        },
    };
    push_char(tag, c);
    let r = scan_tag(numbers, pos + 1, tag);
    proof {
        if let Some(t) = spec_tag_split(numbers@.skip(2 * (pos as int + 1))) {
            assert(old(tag)@.push(c) + t.0 =~= old(tag)@ + (seq![c] + t.0));
        }
    }
    r
}

impl UnionSchema {
    /// The declared variants, in declaration order.
    pub closed spec fn spec_variants(&self) -> Seq<VariantDef> {
        self.variants@
    }

    #[verifier::type_invariant]
    spec fn inv(&self) -> bool {
        variant_ids_unique(self.variants@)
    }

    /// Validate and build a union schema from its declared variants;
    /// construction fails on a duplicate identifier.
    #[verifier::loop_isolation(false)]
    pub fn new(variants: Vec<VariantDef>) -> (r: Result<UnionSchema, SchemaError>)
        ensures
            match r {
                Ok(schema) => variant_ids_unique(variants@) && schema.spec_variants() == variants@,
                Err(e) => e == SchemaError::DuplicateIdentifier && !variant_ids_unique(variants@),
            },
    {
        let n = variants.len();
        let mut i: usize = 0;
        while i < n
            invariant
                i <= n,
                forall|a: int, b: int|
                    0 <= a < i && a < b < n ==> (#[trigger] variants@[a]).id != (
                    #[trigger] variants@[b]).id,
            decreases n - i,
        {
            let mut j = i + 1;
            while j < n
                invariant
                    i < j <= n,
                    forall|b: int|
                        i < b < j ==> (#[trigger] variants@[b]).id != variants@[i as int].id,
                decreases n - j,
            {
                if variants[i].id == variants[j].id {
                    return Err(SchemaError::DuplicateIdentifier);
                }
                j += 1;
            }
            i += 1;
        }
        Ok(UnionSchema { variants })
    }

    /// The declared variants, in declaration order; encode and decode name a
    /// variant by its index here.
    pub fn variants(&self) -> (r: &Vec<VariantDef>)
        ensures
            r@ == self.spec_variants(),
    {
        &self.variants
    }

    /// Encode the payload `values` of the variant at `variant_index`: the
    /// identifier's decimal digits as alphabet text, one separator numeral,
    /// then the payload record's wire form; fails exactly when the index is
    /// out of range or the payload does not encode against its schema.
    pub fn encode(&self, variant_index: usize, values: &Vec<FieldValue>) -> (r: Option<String>)
        ensures
            r is Some <==> spec_encode_union(
                self.spec_variants(),
                variant_index as int,
                values.deep_view(),
            ) is Some,
            r is Some ==> Some(r->0@) == spec_encode_union(
                self.spec_variants(),
                variant_index as int,
                values.deep_view(),
            ),
    {
        if variant_index >= self.variants.len() {
            return None;
        }
        let payload = match self.variants[variant_index].payload.encode(values) {
            Some(p) => p,
            None => {
                return None;
            },
        };
        let id_text = crate::stringify::u64_to_string(self.variants[variant_index].id as u64);
        let enc = Encoding::new();
        let mut wire = match enc.encode(id_text.as_str()) {
            Some(t) => t,
            None => {
                proof {
                    lemma_dec_digits_value(self.variants@[variant_index as int].id as nat);
                    assert forall|k: int|
                        0 <= k < id_text@.len() implies crate::alphabet::in_alphabet(
                        #[trigger] id_text@[k],
                    ) by {
                        crate::codec::lemma_digit_in_alphabet(id_text@[k]);
                    }
                    assert(false);
                }
                return None;
            },
        };
        push_char(&mut wire, '9');
        push_char(&mut wire, '7');
        wire.append(payload.as_str());
        proof {
            let tag = crate::codec::encoded_text(
                dec_digits(self.variants@[variant_index as int].id as nat),
            );
            assert(wire@ =~= tag + seq!['9', '7'] + payload@);
        }
        Some(wire)
    }

    /// Decode a union wire string: read the tag text before the first
    /// separator, parse it as a one-byte identifier, pick the declared variant
    /// carrying it, and decode the remainder as that variant's payload record;
    /// returns the variant's index beside its payload values, and names the
    /// cause of each failure.
    #[verifier::loop_isolation(false)]
    pub fn decode(&self, numbers: &str) -> (r: Result<(usize, Vec<FieldValue>), DecodeError>)
        ensures
            match (r, spec_decode_union(self.spec_variants(), numbers@)) {
                (Ok(ok), Ok(sok)) => ok.0 as int == sok.0 && ok.1.deep_view() == sok.1,
                (Err(e), Err(se)) => e == se,
                _ => false,
            },
    {
        proof {
            use_type_invariant(self);
            assert(numbers@.skip(0) =~= numbers@);
        }
        let mut tag = String::new();
        let end = match scan_tag(numbers, 0, &mut tag) {
            Ok(end) => end,
            Err(e) => {
                return Err(e);
            },
        };
        let id = match crate::stringify::parse_unsigned(tag.as_str(), 255) {
            Some(id) => id as u8,
            None => {
                return Err(DecodeError::UnknownTag);
            },
        };
        let n = self.variants.len();
        let mut j: usize = 0;
        while j < n
            invariant
                j <= n,
                forall|b: int| 0 <= b < j ==> (#[trigger] self.variants@[b]).id != id,
            decreases n - j,
        {
            if self.variants[j].id == id {
                let n_chars = numbers.unicode_len();
                let rest = numbers.substring_char(2 * end, n_chars);
                proof {
                    assert(rest@ =~= numbers@.skip(2 * end as int));
                    let sj = choose|sj: int|
                        0 <= sj < self.variants@.len() && (#[trigger] self.variants@[sj]).id
                            == id as int;
                    assert(self.variants@[j as int].id == id);
                    assert(sj == j as int);
                }
                let vals = match self.variants[j].payload.decode(rest) {
                    Ok(vals) => vals,
                    Err(e) => {
                        return Err(e);
                    },
                };
                return Ok((j, vals));
            }
            j += 1;
        }
        Err(DecodeError::UnknownTag)
    }
}

/// A value's wire text parses back to the value under the same field type.
pub proof fn lemma_stringify_parse(v: FieldValueView, ty: FieldType)
    requires
        spec_stringify(v, ty) is Some,
    ensures
        spec_parse_field(spec_stringify(v, ty)->0, ty) == Some(v),
{
    let s = spec_stringify(v, ty)->0;
    match (v, ty) {
        (FieldValueView::Str(_), FieldType::Str) => {},
        (FieldValueView::U8(x), FieldType::U8) => {
            lemma_dec_digits_value(x as nat);
        },
        (FieldValueView::U16(x), FieldType::U16) => {
            lemma_dec_digits_value(x as nat);
        },
        (FieldValueView::U32(x), FieldType::U32) => {
            lemma_dec_digits_value(x as nat);
        },
        (FieldValueView::U64(x), FieldType::U64) => {
            lemma_dec_digits_value(x as nat);
        },
        (FieldValueView::I8(x), FieldType::I8) => {
            lemma_int_string_parse(x as int, i8::MIN as int, i8::MAX as int);
        },
        (FieldValueView::I16(x), FieldType::I16) => {
            lemma_int_string_parse(x as int, i16::MIN as int, i16::MAX as int);
        },
        (FieldValueView::I32(x), FieldType::I32) => {
            lemma_int_string_parse(x as int, i32::MIN as int, i32::MAX as int);
        },
        (FieldValueView::I64(x), FieldType::I64) => {
            lemma_int_string_parse(x as int, i64::MIN as int, i64::MAX as int);
        },
        _ => {
            assert(false);
        },
    }
}

/// The canonical decimal text of an in-range integer parses back to it.
proof fn lemma_int_string_parse(x: int, min: int, max: int)
    requires
        min <= x <= max,
        min < 0 <= max,
    ensures
        spec_parse_signed(spec_int_string(x), min, max) == Some(x),
{
    if x < 0 {
        let d = dec_digits((-x) as nat);
        lemma_dec_digits_value((-x) as nat);
        let s = seq!['-'] + d;
        assert(s[0] == '-');
        assert(s.skip(1) =~= d);
        assert(s.len() > 1);
        assert(spec_signed_val(s) == Some(x));
    } else {
        let d = dec_digits(x as nat);
        lemma_dec_digits_value(x as nat);
        assert(crate::codec::digit_val(d[0]) is Some);
        assert(d[0] != '-');
        assert(spec_signed_val(d) == Some(x));
    }
}

/// Law: a record whose values fit its schema, whose item texts lie in the
/// alphabet and hold no separator, and whose last item text is non-empty,
/// encoded and decoded again, yields the same field values.
pub proof fn lemma_record_round_trip(fields: Seq<FieldDef>, values: Seq<FieldValueView>)
    requires
        spec_record_items(fields, values) is Some,
        crate::codec::text_in_alphabet(spec_join(spec_record_items(fields, values)->0)),
        forall|i: int|
            0 <= i < spec_record_items(fields, values)->0.len() ==> crate::items::no_separator(
                #[trigger] spec_record_items(fields, values)->0[i],
            ),
        spec_record_items(fields, values)->0.len() > 0 ==> spec_record_items(
            fields,
            values,
        )->0.last().len() > 0,
    ensures
        spec_encode_record(fields, values) is Some,
        spec_decode_record(fields, spec_encode_record(fields, values)->0) == Ok::<
            Seq<FieldValueView>,
            DecodeError,
        >(values),
{
    let items = spec_record_items(fields, values)->0;
    let w = crate::codec::encoded_text(spec_join(items));
    crate::items::lemma_items_round_trip(items);
    assert(wire_valid(w) && spec_split(decoded_text(w)) == items);
    let k = spec_fixed_count(fields);
    if spec_has_flatten(fields) {
        assert(items.len() == k + strlist_of(values.last())->0.len());
    } else {
        assert(items.len() == k);
    }
    assert forall|i: int| 0 <= i < k implies (#[trigger] spec_parse_field(
        items[i],
        fields[i].ty,
    )) == Some(values[i]) by {
        assert(spec_stringify(values[i], fields[i].ty) is Some);
        assert(items[i] == spec_stringify(values[i], fields[i].ty)->0);
        lemma_stringify_parse(values[i], fields[i].ty);
    }
    match spec_decode_record(fields, w) {
        Ok(decoded) => {
            if spec_has_flatten(fields) {
                assert(items.skip(k) =~= strlist_of(values.last())->0);
                assert(FieldValueView::StrList(items.skip(k)) == values.last());
            }
            assert(decoded =~= values);
        },
        Err(_) => {
            assert(false);
        },
    }
}

/// The wire form of non-empty text starts with its first character's numeral.
proof fn lemma_encoded_text_decompose(t: Seq<char>)
    requires
        t.len() > 0,
    ensures
        crate::codec::encoded_text(t) =~= crate::codec::numeral_pair(crate::codec::char_code(t[0]))
            + crate::codec::encoded_text(t.skip(1)),
{
}

/// Scanning the wire form of digit text followed by a separator numeral and a
/// payload yields exactly that digit text and that payload.
proof fn lemma_tag_split_digits(t: Seq<char>, rest: Seq<char>)
    requires
        all_digits(t),
    ensures
        spec_tag_split(crate::codec::encoded_text(t) + seq!['9', '7'] + rest) == Some(
            (t, rest),
        ),
    decreases t.len(),
{
    let w = crate::codec::encoded_text(t) + seq!['9', '7'] + rest;
    if t.len() == 0 {
        assert(w =~= seq!['9', '7'] + rest);
        assert(crate::codec::numeral_val(w[0], w[1]) == Some(97int));
        assert(w.skip(2) =~= rest);
        assert(t =~= Seq::<char>::empty());
    } else {
        let d = crate::codec::digit_val(t[0])->0;
        crate::codec::lemma_digit_char_of_val(t[0]);
        crate::codec::lemma_digit_in_alphabet(t[0]);
        let code = crate::codec::char_code(t[0]);
        assert(code == d + 1);
        assert(0 < code <= 10);
        lemma_encoded_text_decompose(t);
        assert(w[0] == crate::codec::digit_char(code / 10));
        assert(w[1] == crate::codec::digit_char(code % 10));
        crate::codec::lemma_digit_round(code / 10);
        crate::codec::lemma_digit_round(code % 10);
        assert(crate::codec::numeral_val(w[0], w[1]) == Some(code));
        assert(w.skip(2) =~= crate::codec::encoded_text(t.skip(1)) + seq!['9', '7'] + rest);
        assert(all_digits(t.skip(1)));
        lemma_tag_split_digits(t.skip(1), rest);
        crate::alphabet::lemma_alphabet_decode_encode(t[0]);
        assert(crate::alphabet::alphabet_char(code) == t[0]);
        assert(seq![crate::alphabet::alphabet_char(code)] + t.skip(1) =~= t);
    }
}

/// Law: a union value whose payload fits its variant's schema (under the
/// record round-trip conditions) and whose schema holds no two variants with
/// one identifier, encoded and decoded again, yields the same variant index
/// and payload values.
pub proof fn lemma_union_round_trip(
    variants: Seq<VariantDef>,
    idx: int,
    values: Seq<FieldValueView>,
)
    requires
        variant_ids_unique(variants),
        0 <= idx < variants.len(),
        spec_record_items(variants[idx].payload.spec_fields(), values) is Some,
        crate::codec::text_in_alphabet(
            spec_join(spec_record_items(variants[idx].payload.spec_fields(), values)->0),
        ),
        forall|i: int|
            0 <= i < spec_record_items(variants[idx].payload.spec_fields(), values)->0.len()
                ==> crate::items::no_separator(
                #[trigger] spec_record_items(variants[idx].payload.spec_fields(), values)->0[i],
            ),
        spec_record_items(variants[idx].payload.spec_fields(), values)->0.len() > 0
            ==> spec_record_items(
            variants[idx].payload.spec_fields(),
            values,
        )->0.last().len() > 0,
    ensures
        spec_encode_union(variants, idx, values) is Some,
        spec_decode_union(variants, spec_encode_union(variants, idx, values)->0) == Ok::<
            (int, Seq<FieldValueView>),
            DecodeError,
        >((idx, values)),
{
    let fields = variants[idx].payload.spec_fields();
    lemma_record_round_trip(fields, values);
    let pw = spec_encode_record(fields, values)->0;
    let id = variants[idx].id;
    lemma_dec_digits_value(id as nat);
    lemma_tag_split_digits(dec_digits(id as nat), pw);
    let w = spec_encode_union(variants, idx, values)->0;
    assert(w == crate::codec::encoded_text(dec_digits(id as nat)) + seq!['9', '7'] + pw);
    assert(spec_tag_split(w) == Some((dec_digits(id as nat), pw)));
    assert(spec_parse_unsigned(dec_digits(id as nat), u8::MAX as int) == Some(id as int));
    assert((#[trigger] variants[idx]).id == id);
    let j = choose|j: int| 0 <= j < variants.len() && (#[trigger] variants[j]).id == id as int;
    assert(j == idx);
}

/// Inserting an element anywhere in a sequence adds it to the multiset.
proof fn lemma_insert_multiset<A>(s: Seq<A>, x: A, j: int)
    requires
        0 <= j <= s.len(),
    ensures
        s.insert(j, x).to_multiset() == s.to_multiset().insert(x),
{
    broadcast use vstd::seq_lib::group_to_multiset_ensures;
    broadcast use vstd::seq_lib::lemma_multiset_commutative;

    assert(s.insert(j, x) =~= s.take(j) + (seq![x] + s.skip(j)));
    assert(s =~= s.take(j) + s.skip(j));
    assert(seq![x].to_multiset() =~= Multiset::empty().insert(x)) by {
        assert(seq![x] =~= Seq::empty().push(x));
        assert(Seq::<A>::empty().to_multiset() =~= Multiset::empty());
    }
    assert(s.insert(j, x).to_multiset() =~= s.to_multiset().insert(x));
}

} // verus!
