//! Decoding one schema-conformant value from JSON text into destination slots.
use crate::scan::{
    next_key, next_number, next_string, object_open, object_step, open_object,
    number_token, skip_value, string_token, value_skip, ScanError, ScanFault,
};
use crate::number::{parse_unsigned, unsigned_spec, Unsigned};
use crate::schema::{cells, field_fits, Cell, MapField, Scalar, Schema, ShapeKind, Slot};
use vstd::prelude::*;
use vstd::slice::slice_subrange;
use vstd::utf8::encode_utf8;

verus! {

/// Why a decode stopped.
#[derive(Debug, Clone, PartialEq, Eq)]
pub enum DecodeError {
    /// The input holds a different kind of value than the schema asks for:
    /// the scanner says so, or (with no cause) a number with a fraction or an
    /// exponent stands where an integer belongs.
    UnexpectedToken { at: usize, cause: Option<ScanError> },
    /// A number that the target scalar cannot represent.
    NumberOutOfRange { at: usize },
    /// The schema names a kind of value that decoding does not handle.
    UnsupportedSchema { shape: String, scalar: Option<Scalar> },
    /// The scanner rejected the input as malformed.
    ScanFailure { at: usize, cause: ScanError },
    /// Records nested deeper than `MAX_DEPTH`.
    SchemaTooDeep { shape: String },
}

/// How deep records may nest inside the value being decoded.
pub const MAX_DEPTH: usize = 64;

/// The bytes of `text` from `pos` on.
pub open spec fn rest_of(text: Seq<u8>, pos: int) -> Seq<u8> {
    text.subrange(pos, text.len() as int)
}

/// The error for a scan that started at byte `at` and failed with `e`.
pub open spec fn scan_failure(at: int, e: ScanError) -> DecodeError {
    match e.kind {
        ScanFault::WrongType => DecodeError::UnexpectedToken { at: at as usize, cause: Some(e) },
        ScanFault::OutOfRange => DecodeError::NumberOutOfRange { at: at as usize },
        ScanFault::Syntax => DecodeError::ScanFailure { at: at as usize, cause: e },
    }
}

/// The index of the first field, at `from` or later, whose name is `key`.
pub open spec fn lookup(fields: Seq<MapField>, key: Seq<char>, from: int) -> Option<int>
    decreases fields.len() - from,
{
    if from < 0 || from >= fields.len() {
        None
    } else if fields[from].name@ == key {
        Some(from)
    } else {
        lookup(fields, key, from + 1)
    }
}

/// Decoding the value of shape `id`, nested `depth` records deep, from
/// `text` at `pos` into the slots from `base` on: the position just past the
/// value, or the error, and the cells afterwards.
pub open spec fn value_outcome(
    schema: Schema,
    id: int,
    text: Seq<u8>,
    pos: int,
    base: int,
    mem: Seq<Cell>,
    depth: int,
) -> (Result<int, DecodeError>, Seq<Cell>)
    decreases text.len() - pos, 0int,
{
    let shape = schema.shapes@[id];
    let rest = rest_of(text, pos);
    if depth > MAX_DEPTH {
        (Err(DecodeError::SchemaTooDeep { shape: shape.name }), mem)
    } else {
        match shape.kind {
            ShapeKind::Scalar(Scalar::String) => match string_token(rest) {
                Ok((s, n)) => (Ok(pos + n), mem.update(base, Cell::Str(s))),
                Err(e) => (Err(scan_failure(pos, e)), mem),
            },
            ShapeKind::Scalar(Scalar::U64) => match number_token(rest) {
                Ok((lit, n)) => match unsigned_spec(lit) {
                    Unsigned::Value(v) => (Ok(pos + n), mem.update(base, Cell::U64(v))),
                    Unsigned::OutOfRange => (Err(DecodeError::NumberOutOfRange { at: pos as usize }), mem),
                    Unsigned::NotAnInteger => (Err(DecodeError::UnexpectedToken { at: pos as usize, cause: None }), mem),
                },
                Err(e) => (Err(scan_failure(pos, e)), mem),
            },
            ShapeKind::Record(m) => match object_open(rest) {
                Ok((None, n)) => (Ok(pos + n), mem),
                // A successful scan consumes input, so only the first branch is
                // ever taken; the second keeps the definition total.
                Ok((Some(k), n)) => if 0 < n && pos + n <= text.len() {
                    entries_outcome(schema, m.fields@, k, text, pos + n, base, mem, depth)
                } else {
                    (Ok(pos + n), mem)
                },
                Err(e) => (Err(scan_failure(pos, e)), mem),
            },
            ShapeKind::Scalar(k) => (Err(DecodeError::UnsupportedSchema { shape: shape.name, scalar: Some(k) }), mem),
            _ => (Err(DecodeError::UnsupportedSchema { shape: shape.name, scalar: None }), mem),
        }
    }
}

/// Decoding the members of a record nested `depth` records deep, from the
/// value of the member whose key is `key`, which starts at `pos`, to the end
/// of the object.
pub open spec fn entries_outcome(
    schema: Schema,
    fields: Seq<MapField>,
    key: Seq<char>,
    text: Seq<u8>,
    pos: int,
    base: int,
    mem: Seq<Cell>,
    depth: int,
) -> (Result<int, DecodeError>, Seq<Cell>)
    decreases text.len() - pos, 1int,
{
    let (value, mem1) = match lookup(fields, key, 0) {
        Some(j) => value_outcome(
            schema,
            fields[j].shape as int,
            text,
            pos,
            base + fields[j].offset,
            mem,
            depth + 1,
        ),
        None => match value_skip(rest_of(text, pos)) {
            Ok(n) => (Ok(pos + n), mem),
            Err(e) => (Err(scan_failure(pos, e)), mem),
        },
    };
    match value {
        Err(e) => (Err(e), mem1),
        Ok(p) => match object_step(rest_of(text, p)) {
            Err(e) => (Err(scan_failure(p, e)), mem1),
            Ok((None, n)) => (Ok(p + n), mem1),
            // As above: every successful scan moves forward.
            Ok((Some(k), n)) => if pos < p + n <= text.len() {
                entries_outcome(schema, fields, k, text, p + n, base, mem1, depth)
            } else {
                (Ok(p + n), mem1)
            },
        },
    }
}

pub open spec fn outcome_of(r: Result<usize, DecodeError>, mem: Seq<Slot>) -> (Result<int, DecodeError>, Seq<Cell>) {
    (
        match r {
            Ok(p) => Ok(p as int),
            Err(e) => Err(e),
        },
        cells(mem),
    )
}

proof fn lemma_cells_update(mem: Seq<Slot>, i: int, s: Slot)
    requires
        0 <= i < mem.len(),
    ensures
        cells(mem.update(i, s)) == cells(mem).update(i, s.view()),
{
    assert(cells(mem.update(i, s)) =~= cells(mem).update(i, s.view()));
}

fn classify(at: usize, e: ScanError) -> (r: DecodeError)
    ensures
        r == scan_failure(at as int, e),
{
    match e.kind {
        ScanFault::WrongType => DecodeError::UnexpectedToken { at, cause: Some(e) },
        ScanFault::OutOfRange => DecodeError::NumberOutOfRange { at },
        ScanFault::Syntax => DecodeError::ScanFailure { at, cause: e },
    }
}

/// The index of the first field whose name is `key`.
pub fn find_field(fields: &Vec<MapField>, key: &String) -> (r: Option<usize>)
    ensures
        match r {
            Some(j) => lookup(fields@, key@, 0) == Some(j as int),
            None => lookup(fields@, key@, 0) is None,
        },
        r matches Some(j) ==> j < fields@.len(),
{
    let mut i: usize = 0;
    while i < fields.len()
        invariant
            i <= fields@.len(),
            lookup(fields@, key@, 0) == lookup(fields@, key@, i as int),
        decreases fields@.len() - i,
    {
        if fields[i].name == *key {
            assert(lookup(fields@, key@, i as int) == Some(i as int));
            return Some(i);
        }
        i = i + 1;
    }
    None
}

/// Decodes one value of shape `id`, nested `depth` records deep, from `text`
/// at byte `pos` and writes it into `mem` from slot `base` on. Returns the
/// position just past the value.
pub fn decode_value(
    schema: &Schema,
    id: usize,
    text: &[u8],
    pos: usize,
    base: usize,
    mem: &mut Vec<Slot>,
    depth: usize,
) -> (r: Result<usize, DecodeError>)
    requires
        schema.wf(),
        id < schema.shapes@.len(),
        base + schema.shapes@[id as int].size <= old(mem)@.len(),
        pos <= text@.len(),
    ensures
        outcome_of(r, final(mem)@) == value_outcome(
            *schema,
            id as int,
            text@,
            pos as int,
            base as int,
            cells(old(mem)@),
            depth as int,
        ),
        final(mem)@.len() == old(mem)@.len(),
        r matches Ok(p) ==> pos < p <= text@.len(),
    decreases text@.len() - pos, 0int,
{
    let shape = &schema.shapes[id];
    if depth > MAX_DEPTH {
        return Err(DecodeError::SchemaTooDeep { shape: shape.name.clone() });
    }
    assert(schema.shapes@[id as int].fits(schema.shapes@));
    let rest = slice_subrange(text, pos, text.len());
    match &shape.kind {
        ShapeKind::Scalar(Scalar::String) => match next_string(rest) {
            Ok((s, n)) => {
                proof {
                    lemma_cells_update(mem@, base as int, Slot::Str(s));
                }
                mem[base] = Slot::Str(s);
                Ok(pos + n)
            },
            Err(e) => Err(classify(pos, e)),
        },
        ShapeKind::Scalar(Scalar::U64) => match next_number(rest) {
            Ok((lit, n)) => match parse_unsigned(lit.as_slice()) {
                Unsigned::Value(v) => {
                    proof {
                        lemma_cells_update(mem@, base as int, Slot::U64(v));
                    }
                    mem[base] = Slot::U64(v);
                    Ok(pos + n)
                },
                Unsigned::OutOfRange => Err(DecodeError::NumberOutOfRange { at: pos }),
                Unsigned::NotAnInteger => Err(DecodeError::UnexpectedToken { at: pos, cause: None }),
            },
            Err(e) => Err(classify(pos, e)),
        },
        ShapeKind::Record(m) => match open_object(rest) {
            Ok((None, n)) => Ok(pos + n),
            Ok((Some(k), n)) => decode_entries(schema, &m.fields, shape.size, k, text, pos + n, base, mem, depth),
            Err(e) => Err(classify(pos, e)),
        },
        ShapeKind::Scalar(k) => Err(DecodeError::UnsupportedSchema { shape: shape.name.clone(), scalar: Some(*k) }),
        _ => Err(DecodeError::UnsupportedSchema { shape: shape.name.clone(), scalar: None }),
    }
}

/// Decodes the members of a record, from the value of the member whose key
/// is `first` (which starts at `pos`) to the closing brace of the object.
/// A member whose key names no field is skipped whole.
fn decode_entries(
    schema: &Schema,
    fields: &Vec<MapField>,
    size: usize,
    first: String,
    text: &[u8],
    pos: usize,
    base: usize,
    mem: &mut Vec<Slot>,
    depth: usize,
) -> (r: Result<usize, DecodeError>)
    requires
        schema.wf(),
        depth <= MAX_DEPTH,
        forall|j: int| 0 <= j < fields@.len() ==> field_fits(#[trigger] fields@[j], schema.shapes@, size),
        base + size <= old(mem).len(),
        pos <= text@.len(),
    ensures
        outcome_of(r, final(mem)@) == entries_outcome(
            *schema,
            fields@,
            first@,
            text@,
            pos as int,
            base as int,
            cells(old(mem)@),
            depth as int,
        ),
        final(mem)@.len() == old(mem)@.len(),
        r matches Ok(p) ==> pos < p <= text@.len(),
    decreases text@.len() - pos, 1int,
{
    let mut key = first;
    let mut cur = pos;
    loop
        invariant
            schema.wf(),
            depth <= MAX_DEPTH,
            forall|j: int| 0 <= j < fields@.len() ==> field_fits(#[trigger] fields@[j], schema.shapes@, size),
            base + size <= mem.len(),
            mem@.len() == old(mem)@.len(),
            pos <= cur <= text@.len(),
            entries_outcome(*schema, fields@, key@, text@, cur as int, base as int, cells(mem@), depth as int)
                == entries_outcome(*schema, fields@, first@, text@, pos as int, base as int, cells(old(mem)@), depth as int),
        decreases text@.len() - cur,
    {
        let value = match find_field(fields, &key) {
            Some(j) => {
                assert(field_fits(fields@[j as int], schema.shapes@, size));
                decode_value(schema, fields[j].shape, text, cur, base + fields[j].offset, mem, depth + 1)
            },
            None => match skip_value(slice_subrange(text, cur, text.len())) {
                Ok(n) => Ok(cur + n),
                Err(e) => Err(classify(cur, e)),
            },
        };
        let p = match value {
            Ok(p) => p,
            Err(e) => {
                return Err(e);
            },
        };
        match next_key(slice_subrange(text, p, text.len())) {
            Ok((Some(k), n)) => {
                key = k;
                cur = p + n;
            },
            Ok((None, n)) => {
                return Ok(p + n);
            },
            Err(e) => {
                return Err(classify(p, e));
            },
        }
    }
}

/// Decodes the JSON text `json` as a value of the schema's root shape into
/// `target`, whose slots from the first on hold that value. Members whose
/// keys name no field are skipped; the first error ends the decode, and the
/// slots written before it keep their new values.
pub fn from_json(target: &mut Vec<Slot>, schema: &Schema, json: &str) -> (r: Result<(), DecodeError>)
    requires
        schema.wf(),
        schema.shapes@[schema.root as int].size <= old(target)@.len(),
    ensures
        ({
            let (res, after) = json_outcome(*schema, json@, cells(old(target)@));
            &&& cells(final(target)@) == after
            &&& r is Ok <==> res is Ok
            &&& r matches Err(e) ==> res == Err::<int, DecodeError>(e)
        }),
{
    let text = json.as_bytes();
    match decode_value(schema, schema.root, text, 0, 0, target, 0) {
        Ok(_) => Ok(()),
        Err(e) => Err(e),
    }
}

/// Decoding the whole of a text as a value of the schema's root shape.
pub open spec fn json_outcome(schema: Schema, json: Seq<char>, mem: Seq<Cell>) -> (Result<int, DecodeError>, Seq<Cell>) {
    value_outcome(schema, schema.root as int, encode_utf8(json), 0, 0, mem, 0)
}

} // verus!
