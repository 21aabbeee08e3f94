use vstd::prelude::*;

verus! {

/// The scalar kinds a schema can name.
#[derive(Debug, Clone, Copy, PartialEq, Eq)]
pub enum Scalar {
    String,
    Bytes,
    I8,
    I16,
    I32,
    I64,
    I128,
    U8,
    U16,
    U32,
    U64,
    U128,
    /// A 32-bit floating-point number.
    Float,
    /// A 64-bit floating-point number.
    Double,
    Bool,
    /// The unit value.
    Nothing,
}

/// One named field of a record: where it lives relative to the record's base
/// slot, and the index of its own shape in the enclosing [`Schema`].
#[derive(Debug, Clone, PartialEq, Eq)]
pub struct MapField {
    pub name: String,
    pub offset: usize,
    pub shape: usize,
}

/// A record: its fields in declaration order. Members whose keys name no
/// field are skipped whatever `open_ended` says.
#[derive(Debug, Clone, PartialEq, Eq)]
pub struct MapShape {
    pub fields: Vec<MapField>,
    pub open_ended: bool,
}

#[derive(Debug, Clone, PartialEq, Eq)]
pub enum ShapeKind {
    Scalar(Scalar),
    Record(MapShape),
    /// A sequence of values of the shape with the given index.
    Array(usize),
    /// A wrapper around a value of the shape with the given index.
    Transparent(usize),
    /// Any other kind of value (tuples, maps, enums, ...).
    Other,
}

/// How a value is interpreted and laid out: `size` is the number of slots
/// the value spans.
#[derive(Debug, Clone, PartialEq, Eq)]
pub struct Shape {
    pub name: String,
    pub size: usize,
    pub kind: ShapeKind,
}

/// A set of shapes that refer to one another by index, and the index of the
/// shape of the whole value.
#[derive(Debug, Clone, PartialEq, Eq)]
pub struct Schema {
    pub shapes: Vec<Shape>,
    pub root: usize,
}

/// One slot of destination memory.
#[derive(Debug, Clone, PartialEq, Eq)]
pub enum Slot {
    Empty,
    Str(String),
    U64(u64),
}

/// What a slot holds, as a mathematical value.
pub enum Cell {
    Empty,
    Str(Seq<char>),
    U64(u64),
}

impl Slot {
    pub open spec fn view(&self) -> Cell {
        match self {
            Slot::Empty => Cell::Empty,
            Slot::Str(s) => Cell::Str(s@),
            Slot::U64(n) => Cell::U64(*n),
        }
    }
}

/// The cells of a destination memory.
pub open spec fn cells(mem: Seq<Slot>) -> Seq<Cell> {
    mem.map_values(|s: Slot| s.view())
}

impl Shape {
    /// The layout facts that make every write of a decode land inside the
    /// value's own slots: a scalar spans at least one slot, and each field of
    /// a record names a shape of the schema and fits inside the record.
    pub open spec fn fits(&self, shapes: Seq<Shape>) -> bool {
        match self.kind {
            ShapeKind::Scalar(_) => self.size >= 1,
            ShapeKind::Record(m) => forall|j: int|
                0 <= j < m.fields@.len() ==> field_fits(#[trigger] m.fields@[j], shapes, self.size),
            _ => true,
        }
    }
}

pub open spec fn field_fits(f: MapField, shapes: Seq<Shape>, size: usize) -> bool {
    &&& f.shape < shapes.len()
    &&& f.offset + shapes[f.shape as int].size <= size
}

impl Schema {
    pub open spec fn wf(&self) -> bool {
        &&& self.root < self.shapes@.len()
        &&& forall|i: int| 0 <= i < self.shapes@.len() ==> (#[trigger] self.shapes@[i]).fits(self.shapes@)
    }
}

impl Shape {
    /// Whether the shape's layout fits inside the shapes `shapes`.
    pub fn check_fits(&self, shapes: &Vec<Shape>) -> (r: bool)
        ensures
            r == self.fits(shapes@),
    {
        match &self.kind {
            ShapeKind::Scalar(_) => self.size >= 1,
            ShapeKind::Record(m) => {
                let mut j: usize = 0;
                while j < m.fields.len()
                    invariant
                        self.kind == ShapeKind::Record(*m),
                        j <= m.fields@.len(),
                        forall|k: int| 0 <= k < j ==> field_fits(#[trigger] m.fields@[k], shapes@, self.size),
                    decreases m.fields@.len() - j,
                {
                    let f = &m.fields[j];
                    if f.shape >= shapes.len() || f.offset > self.size || shapes[f.shape].size > self.size - f.offset {
                        assert(0 <= j < self.kind->Record_0.fields@.len());
                        assert(!field_fits(self.kind->Record_0.fields@[j as int], shapes@, self.size));
                        assert(!self.fits(shapes@));
                        return false;
                    }
                    j = j + 1;
                }
                true
            },
            _ => true,
        }
    }
}

impl Schema {
    /// Whether the schema is well formed: its root names one of its shapes,
    /// and every shape's layout fits.
    pub fn is_well_formed(&self) -> (r: bool)
        ensures
            r == self.wf(),
    {
        if self.root >= self.shapes.len() {
            return false;
        }
        let mut i: usize = 0;
        while i < self.shapes.len()
            invariant
                i <= self.shapes@.len(),
                forall|k: int| 0 <= k < i ==> (#[trigger] self.shapes@[k]).fits(self.shapes@),
            decreases self.shapes@.len() - i,
        {
            if !self.shapes[i].check_fits(&self.shapes) {
                assert(!self.shapes@[i as int].fits(self.shapes@));
                return false;
            }
            i = i + 1;
        }
        true
    }

    /// The number of slots that a value of the root shape spans.
    pub fn root_size(&self) -> (r: usize)
        requires
            self.root < self.shapes@.len(),
        ensures
            r == self.shapes@[self.root as int].size,
    {
        self.shapes[self.root].size
    }
}

} // verus!
