//! Properties of decoding, proved over `value_outcome` and `entries_outcome`.
use crate::decode::{entries_outcome, lookup, rest_of, scan_failure, value_outcome, DecodeError, MAX_DEPTH};
use crate::number::integer_literal;
use crate::scan::{number_token, object_open, object_step, string_token, value_skip, ScanFault};
use crate::schema::{field_fits, Cell, MapField, Scalar, Schema, ShapeKind};
use vstd::prelude::*;

verus! {

/// A string shape stores the text of the string token that starts at `pos`
/// into its slot and ends just past that token; a failed scan writes nothing.
pub proof fn lemma_string_scalar(schema: Schema, id: int, text: Seq<u8>, pos: int, base: int, mem: Seq<Cell>, depth: int)
    requires
        0 <= id < schema.shapes@.len(),
        schema.shapes@[id].kind == ShapeKind::Scalar(Scalar::String),
        depth <= MAX_DEPTH,
    ensures
        match string_token(rest_of(text, pos)) {
            Ok((s, n)) => value_outcome(schema, id, text, pos, base, mem, depth)
                == (Ok::<int, DecodeError>(pos + n), mem.update(base, Cell::Str(s))),
            Err(_) => value_outcome(schema, id, text, pos, base, mem, depth).0 is Err
                && value_outcome(schema, id, text, pos, base, mem, depth).1 == mem,
        },
{
}

/// An unsigned integer shape stores the exact value of an integer literal
/// from 0 to `u64::MAX`; an integer below or above that range is
/// `NumberOutOfRange`; a number with a fraction or an exponent, or a token
/// that is no number, is `UnexpectedToken`. Only the first case writes.
pub proof fn lemma_unsigned_scalar(schema: Schema, id: int, text: Seq<u8>, pos: int, base: int, mem: Seq<Cell>, depth: int)
    requires
        0 <= id < schema.shapes@.len(),
        schema.shapes@[id].kind == ShapeKind::Scalar(Scalar::U64),
        depth <= MAX_DEPTH,
    ensures
        ({
            let (r, after) = value_outcome(schema, id, text, pos, base, mem, depth);
            match number_token(rest_of(text, pos)) {
                Ok((lit, n)) => match integer_literal(lit) {
                    Some(k) => if 0 <= k <= u64::MAX {
                        r == Ok::<int, DecodeError>(pos + n) && after == mem.update(base, Cell::U64(k as u64))
                    } else {
                        r is Err && r->Err_0 is NumberOutOfRange && after == mem
                    },
                    None => r is Err && r->Err_0 is UnexpectedToken && after == mem,
                },
                Err(e) => after == mem && r is Err && (e.kind == ScanFault::OutOfRange ==> r->Err_0 is NumberOutOfRange)
                    && (e.kind == ScanFault::WrongType ==> r->Err_0 is UnexpectedToken)
                    && (e.kind == ScanFault::Syntax ==> r->Err_0 is ScanFailure),
            }
        }),
{
}

/// An empty object decodes as a record without writing anything.
pub proof fn lemma_empty_record(schema: Schema, id: int, text: Seq<u8>, pos: int, base: int, mem: Seq<Cell>, depth: int)
    requires
        0 <= id < schema.shapes@.len(),
        schema.shapes@[id].kind is Record,
        depth <= MAX_DEPTH,
        object_open(rest_of(text, pos)) matches Ok((None, _)),
    ensures
        value_outcome(schema, id, text, pos, base, mem, depth)
            == (Ok::<int, DecodeError>(pos + object_open(rest_of(text, pos))->Ok_0.1), mem),
{
}

/// A member whose key names no field is skipped whole, whatever its value,
/// and decoding goes on with the next member as if it had not been there.
pub proof fn lemma_unknown_key_skipped(
    schema: Schema,
    fields: Seq<MapField>,
    key: Seq<char>,
    text: Seq<u8>,
    pos: int,
    base: int,
    mem: Seq<Cell>,
    depth: int,
)
    requires
        lookup(fields, key, 0) is None,
        value_skip(rest_of(text, pos)) is Ok,
    ensures
        ({
            let p = pos + value_skip(rest_of(text, pos))->Ok_0;
            entries_outcome(schema, fields, key, text, pos, base, mem, depth) == match object_step(rest_of(text, p)) {
                Ok((Some(k), n)) => if pos < p + n <= text.len() {
                    entries_outcome(schema, fields, k, text, p + n, base, mem, depth)
                } else {
                    (Ok(p + n), mem)
                },
                Ok((None, n)) => (Ok(p + n), mem),
                Err(e) => (Err(scan_failure(p, e)), mem),
            }
        }),
{
}

proof fn lemma_lookup_in_range(fields: Seq<MapField>, key: Seq<char>, from: int)
    ensures
        lookup(fields, key, from) matches Some(j) ==> from <= j < fields.len(),
    decreases fields.len() - from,
{
    if 0 <= from < fields.len() && fields[from].name@ != key {
        lemma_lookup_in_range(fields, key, from + 1);
    }
}

/// Decoding a value changes no cell outside the slots `base .. base + size`
/// of its shape, and keeps the number of cells, whether it succeeds or fails.
pub proof fn lemma_value_frame(schema: Schema, id: int, text: Seq<u8>, pos: int, base: int, mem: Seq<Cell>, depth: int)
    requires
        schema.wf(),
        0 <= id < schema.shapes@.len(),
        0 <= base,
        base + schema.shapes@[id].size <= mem.len(),
        0 <= pos <= text.len(),
    ensures
        ({
            let after = value_outcome(schema, id, text, pos, base, mem, depth).1;
            &&& after.len() == mem.len()
            &&& forall|i: int| 0 <= i < mem.len() && !(base <= i < base + schema.shapes@[id].size)
                ==> after[i] == mem[i]
        }),
    decreases text.len() - pos, 0int,
{
    let shape = schema.shapes@[id];
    assert(shape.fits(schema.shapes@));
    match shape.kind {
        ShapeKind::Record(m) => {
            if let Ok((Some(k), n)) = object_open(rest_of(text, pos)) {
                if 0 < n && pos + n <= text.len() {
                    lemma_entries_frame(schema, m.fields@, shape.size as int, k, text, pos + n, base, mem, depth);
                }
            }
        },
        _ => {},
    }
}

/// Decoding the members of a record whose fields all lie within `size` slots
/// changes no cell outside `base .. base + size`.
pub proof fn lemma_entries_frame(
    schema: Schema,
    fields: Seq<MapField>,
    size: int,
    key: Seq<char>,
    text: Seq<u8>,
    pos: int,
    base: int,
    mem: Seq<Cell>,
    depth: int,
)
    requires
        schema.wf(),
        0 <= size,
        forall|j: int| 0 <= j < fields.len() ==> field_fits(#[trigger] fields[j], schema.shapes@, size as usize),
        size <= usize::MAX,
        0 <= base,
        base + size <= mem.len(),
        0 <= pos <= text.len(),
    ensures
        ({
            let after = entries_outcome(schema, fields, key, text, pos, base, mem, depth).1;
            &&& after.len() == mem.len()
            &&& forall|i: int| 0 <= i < mem.len() && !(base <= i < base + size) ==> after[i] == mem[i]
        }),
    decreases text.len() - pos, 1int,
{
    lemma_lookup_in_range(fields, key, 0);
    let (value, mem1) = match lookup(fields, key, 0) {
        Some(j) => {
            assert(field_fits(fields[j], schema.shapes@, size as usize));
            lemma_value_frame(schema, fields[j].shape as int, text, pos, base + fields[j].offset, mem, depth + 1);
            value_outcome(schema, fields[j].shape as int, text, pos, base + fields[j].offset, mem, depth + 1)
        },
        None => match value_skip(rest_of(text, pos)) {
            Ok(n) => (Ok(pos + n), mem),
            Err(e) => (Err(scan_failure(pos, e)), mem),
        },
    };
    if let Ok(p) = value {
        if let Ok((Some(k), n)) = object_step(rest_of(text, p)) {
            if pos < p + n <= text.len() {
                lemma_entries_frame(schema, fields, size, k, text, p + n, base, mem1, depth);
            }
        }
    }
}

/// Two memories agree on cell `i` after a decode when the decode wrote the
/// cell in both, or in neither.
pub open spec fn same_write(m1: Seq<Cell>, a1: Seq<Cell>, m2: Seq<Cell>, a2: Seq<Cell>, i: int) -> bool {
    (a1[i] == m1[i] && a2[i] == m2[i]) || a1[i] == a2[i]
}

/// What decoding a value returns, and what it writes, does not depend on
/// what the cells held before: any cell it leaves changed in one memory it
/// sets to the same thing in every other memory of the same length.
pub proof fn lemma_value_independent(
    schema: Schema,
    id: int,
    text: Seq<u8>,
    pos: int,
    base: int,
    m1: Seq<Cell>,
    m2: Seq<Cell>,
    depth: int,
)
    requires
        schema.wf(),
        0 <= id < schema.shapes@.len(),
        0 <= base,
        base + schema.shapes@[id].size <= m1.len(),
        m1.len() == m2.len(),
        0 <= pos <= text.len(),
    ensures
        ({
            let o1 = value_outcome(schema, id, text, pos, base, m1, depth);
            let o2 = value_outcome(schema, id, text, pos, base, m2, depth);
            &&& o1.0 == o2.0
            &&& forall|i: int| 0 <= i < m1.len() ==> #[trigger] same_write(m1, o1.1, m2, o2.1, i)
        }),
    decreases text.len() - pos, 0int,
{
    let shape = schema.shapes@[id];
    assert(shape.fits(schema.shapes@));
    match shape.kind {
        ShapeKind::Record(m) => {
            if let Ok((Some(k), n)) = object_open(rest_of(text, pos)) {
                if 0 < n && pos + n <= text.len() {
                    lemma_entries_independent(schema, m.fields@, shape.size as int, k, text, pos + n, base, m1, m2, depth);
                }
            }
        },
        _ => {},
    }
}

/// The members of a record, like a single value, decode to the same result
/// and the same writes whatever the cells held before.
pub proof fn lemma_entries_independent(
    schema: Schema,
    fields: Seq<MapField>,
    size: int,
    key: Seq<char>,
    text: Seq<u8>,
    pos: int,
    base: int,
    m1: Seq<Cell>,
    m2: Seq<Cell>,
    depth: int,
)
    requires
        schema.wf(),
        0 <= size <= usize::MAX,
        forall|j: int| 0 <= j < fields.len() ==> field_fits(#[trigger] fields[j], schema.shapes@, size as usize),
        0 <= base,
        base + size <= m1.len(),
        m1.len() == m2.len(),
        0 <= pos <= text.len(),
    ensures
        ({
            let o1 = entries_outcome(schema, fields, key, text, pos, base, m1, depth);
            let o2 = entries_outcome(schema, fields, key, text, pos, base, m2, depth);
            &&& o1.0 == o2.0
            &&& forall|i: int| 0 <= i < m1.len() ==> #[trigger] same_write(m1, o1.1, m2, o2.1, i)
        }),
    decreases text.len() - pos, 1int,
{
    lemma_lookup_in_range(fields, key, 0);
    let (v1, n1, v2, n2) = match lookup(fields, key, 0) {
        Some(j) => {
            assert(field_fits(fields[j], schema.shapes@, size as usize));
            let fid = fields[j].shape as int;
            let fb = base + fields[j].offset;
            lemma_value_independent(schema, fid, text, pos, fb, m1, m2, depth + 1);
            lemma_value_frame(schema, fid, text, pos, fb, m1, depth + 1);
            lemma_value_frame(schema, fid, text, pos, fb, m2, depth + 1);
            let o1 = value_outcome(schema, fid, text, pos, fb, m1, depth + 1);
            let o2 = value_outcome(schema, fid, text, pos, fb, m2, depth + 1);
            (o1.0, o1.1, o2.0, o2.1)
        },
        None => {
            let v = match value_skip(rest_of(text, pos)) {
                Ok(n) => Ok(pos + n),
                Err(e) => Err(scan_failure(pos, e)),
            };
            (v, m1, v, m2)
        },
    };
    assert(v1 == v2);
    if let Ok(p) = v1 {
        if let Ok((Some(k), n)) = object_step(rest_of(text, p)) {
            if pos < p + n <= text.len() {
                lemma_entries_independent(schema, fields, size, k, text, p + n, base, n1, n2, depth);
                let o1 = entries_outcome(schema, fields, k, text, p + n, base, n1, depth);
                let o2 = entries_outcome(schema, fields, k, text, p + n, base, n2, depth);
                assert forall|i: int| 0 <= i < m1.len() implies #[trigger] same_write(m1, o1.1, m2, o2.1, i) by {
                    assert(same_write(n1, o1.1, n2, o2.1, i));
                    assert(same_write(m1, n1, m2, n2, i));
                }
            }
        }
    }
}

/// The order of the members does not matter: decoding a value into one
/// region of slots and then another value into a disjoint region ends with
/// the same cells, and the same two results, as decoding them the other way
/// round.
pub proof fn lemma_disjoint_values_commute(
    schema: Schema,
    a: int,
    text_a: Seq<u8>,
    pos_a: int,
    base_a: int,
    b: int,
    text_b: Seq<u8>,
    pos_b: int,
    base_b: int,
    mem: Seq<Cell>,
    depth: int,
)
    requires
        schema.wf(),
        0 <= a < schema.shapes@.len(),
        0 <= b < schema.shapes@.len(),
        0 <= base_a,
        base_a + schema.shapes@[a].size <= mem.len(),
        0 <= base_b,
        base_b + schema.shapes@[b].size <= mem.len(),
        base_a + schema.shapes@[a].size <= base_b || base_b + schema.shapes@[b].size <= base_a,
        0 <= pos_a <= text_a.len(),
        0 <= pos_b <= text_b.len(),
    ensures
        ({
            let first_a = value_outcome(schema, a, text_a, pos_a, base_a, mem, depth);
            let then_b = value_outcome(schema, b, text_b, pos_b, base_b, first_a.1, depth);
            let first_b = value_outcome(schema, b, text_b, pos_b, base_b, mem, depth);
            let then_a = value_outcome(schema, a, text_a, pos_a, base_a, first_b.1, depth);
            &&& then_b.1 == then_a.1
            &&& first_a.0 == then_a.0
            &&& first_b.0 == then_b.0
        }),
{
    let x = value_outcome(schema, a, text_a, pos_a, base_a, mem, depth).1;
    let xb = value_outcome(schema, b, text_b, pos_b, base_b, mem, depth).1;
    let y = value_outcome(schema, b, text_b, pos_b, base_b, x, depth).1;
    let yb = value_outcome(schema, a, text_a, pos_a, base_a, xb, depth).1;
    lemma_value_frame(schema, a, text_a, pos_a, base_a, mem, depth);
    lemma_value_frame(schema, b, text_b, pos_b, base_b, mem, depth);
    lemma_value_frame(schema, b, text_b, pos_b, base_b, x, depth);
    lemma_value_frame(schema, a, text_a, pos_a, base_a, xb, depth);
    lemma_value_independent(schema, b, text_b, pos_b, base_b, x, mem, depth);
    lemma_value_independent(schema, a, text_a, pos_a, base_a, xb, mem, depth);
    assert forall|i: int| 0 <= i < mem.len() implies y[i] == yb[i] by {
        assert(same_write(x, y, mem, xb, i));
        assert(same_write(xb, yb, mem, x, i));
    }
    assert(y =~= yb);
}

} // verus!
