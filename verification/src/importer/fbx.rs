//! Binary FBX: the tree of records, read as a flat walk in file order.
use vstd::prelude::*;
use vstd::string::StringSliceAdditionalSpecFns;
use crate::importer::stl::{le_u16, le_u32, read_u16, read_u32};
use crate::importer::ImportError;
use crate::text::{copy_range, is_word};

verus! {

/// The bytes before the first record: the magic string, two bytes and the
/// version.
pub const FBX_HEADER_SIZE: usize = 27;

/// The bytes of a record before its name: where the record ends, how many
/// properties it has, how many bytes they take, and the length of the name.
pub const FBX_RECORD_HEADER_SIZE: usize = 13;

/// Whether `magic` is the start of a binary FBX file.
pub fn is_binary(magic: &[u8]) -> (r: bool)
    ensures
        r == (magic@ == "Kaydara FBX Binary  \0".spec_bytes()),
{
    is_word(magic, "Kaydara FBX Binary  \0")
}

/// The kinds of property.
#[derive(Clone, Copy, Debug, PartialEq, Eq, Structural)]
pub enum TypeCode {
    Short,
    Int,
    Long,
    Float,
    Double,
    Bool,
    FloatArray,
    DoubleArray,
    LongArray,
    IntArray,
    BoolArray,
    String,
    Raw,
}

impl TypeCode {
    /// The kind that a type byte stands for: `Y`, `C`, `I`, `F`, `D`, `L`
    /// for single values, `f`, `d`, `l`, `i`, `b` for arrays, `S` for a
    /// string and `R` for raw bytes.
    pub open spec fn of_byte(byte: u8) -> Option<TypeCode> {
        if byte == 89 {
            Some(TypeCode::Short)
        } else if byte == 67 {
            Some(TypeCode::Bool)
        } else if byte == 73 {
            Some(TypeCode::Int)
        } else if byte == 70 {
            Some(TypeCode::Float)
        } else if byte == 68 {
            Some(TypeCode::Double)
        } else if byte == 76 {
            Some(TypeCode::Long)
        } else if byte == 102 {
            Some(TypeCode::FloatArray)
        } else if byte == 100 {
            Some(TypeCode::DoubleArray)
        } else if byte == 108 {
            Some(TypeCode::LongArray)
        } else if byte == 105 {
            Some(TypeCode::IntArray)
        } else if byte == 98 {
            Some(TypeCode::BoolArray)
        } else if byte == 83 {
            Some(TypeCode::String)
        } else if byte == 82 {
            Some(TypeCode::Raw)
        } else {
            None
        }
    }

    /// The bytes of one item of an array of this kind, 0 for a kind that is
    /// no array.
    pub open spec fn item_size(self) -> int {
        match self {
            TypeCode::FloatArray => 4,
            TypeCode::DoubleArray => 8,
            TypeCode::LongArray => 8,
            TypeCode::IntArray => 4,
            TypeCode::BoolArray => 1,
            _ => 0,
        }
    }

    /// The kind that a type byte stands for.
    pub fn from_byte(byte: u8) -> (r: Option<TypeCode>)
        ensures
            r == TypeCode::of_byte(byte),
    {
        if byte == 89 {
            Some(TypeCode::Short)
        } else if byte == 67 {
            Some(TypeCode::Bool)
        } else if byte == 73 {
            Some(TypeCode::Int)
        } else if byte == 70 {
            Some(TypeCode::Float)
        } else if byte == 68 {
            Some(TypeCode::Double)
        } else if byte == 76 {
            Some(TypeCode::Long)
        } else if byte == 102 {
            Some(TypeCode::FloatArray)
        } else if byte == 100 {
            Some(TypeCode::DoubleArray)
        } else if byte == 108 {
            Some(TypeCode::LongArray)
        } else if byte == 105 {
            Some(TypeCode::IntArray)
        } else if byte == 98 {
            Some(TypeCode::BoolArray)
        } else if byte == 83 {
            Some(TypeCode::String)
        } else if byte == 82 {
            Some(TypeCode::Raw)
        } else {
            None
        }
    }

    fn size_of_item(self) -> (r: u64)
        ensures
            r == self.item_size(),
    {
        match self {
            TypeCode::FloatArray => 4,
            TypeCode::DoubleArray => 8,
            TypeCode::LongArray => 8,
            TypeCode::IntArray => 4,
            TypeCode::BoolArray => 1,
            _ => 0,
        }
    }
}

/// The unsigned number that the eight bytes from `at` on write, lowest
/// byte first.
pub open spec fn le_u64(s: Seq<u8>, at: int) -> u64 {
    (le_u32(s, at) + 0x1_0000_0000 * le_u32(s, at + 4)) as u64
}

/// The signed 16-bit number that two bytes write in two's complement.
pub open spec fn le_i16(s: Seq<u8>, at: int) -> i16 {
    if le_u16(s, at) >= 0x8000 {
        (le_u16(s, at) - 0x1_0000) as i16
    } else {
        le_u16(s, at) as i16
    }
}

/// The signed 32-bit number that four bytes write in two's complement.
pub open spec fn le_i32(s: Seq<u8>, at: int) -> i32 {
    if le_u32(s, at) >= 0x8000_0000 {
        (le_u32(s, at) - 0x1_0000_0000) as i32
    } else {
        le_u32(s, at) as i32
    }
}

/// The signed 64-bit number that eight bytes write in two's complement.
pub open spec fn le_i64(s: Seq<u8>, at: int) -> i64 {
    if le_u64(s, at) >= 0x8000_0000_0000_0000 {
        (le_u64(s, at) - 0x1_0000_0000_0000_0000) as i64
    } else {
        le_u64(s, at) as i64
    }
}

fn read_u64(bytes: &[u8], at: usize) -> (r: u64)
    requires
        at + 8 <= bytes@.len(),
    ensures
        r == le_u64(bytes@, at as int),
{
    let len: usize = bytes.len();
    let lo: u64 = read_u32(bytes, at) as u64;
    let hi: u64 = read_u32(bytes, at + 4) as u64;
    lo + 0x1_0000_0000 * hi
}

fn read_i16(bytes: &[u8], at: usize) -> (r: i16)
    requires
        at + 2 <= bytes@.len(),
    ensures
        r == le_i16(bytes@, at as int),
{
    let u: u16 = read_u16(bytes, at);
    if u >= 0x8000 {
        ((u - 0x8000) as i16) + i16::MIN
    } else {
        u as i16
    }
}

fn read_i32(bytes: &[u8], at: usize) -> (r: i32)
    requires
        at + 4 <= bytes@.len(),
    ensures
        r == le_i32(bytes@, at as int),
{
    let u: u32 = read_u32(bytes, at);
    if u >= 0x8000_0000 {
        ((u - 0x8000_0000) as i32) + i32::MIN
    } else {
        u as i32
    }
}

fn read_i64(bytes: &[u8], at: usize) -> (r: i64)
    requires
        at + 8 <= bytes@.len(),
    ensures
        r == le_i64(bytes@, at as int),
{
    let u: u64 = read_u64(bytes, at);
    if u >= 0x8000_0000_0000_0000 {
        ((u - 0x8000_0000_0000_0000) as i64) + i64::MIN
    } else {
        u as i64
    }
}

/// A property of a record.
#[derive(Clone, Debug)]
pub enum FbxProperty {
    Short(i16),
    Bool(bool),
    Int(i32),
    /// A binary32 number, by its bits.
    Float(u32),
    /// A binary64 number, by its bits.
    Double(u64),
    Long(i64),
    /// An array: the kind of its items, their number, how they are
    /// encoded, and the bytes that hold them. The bytes are the items
    /// themselves where `encoding` is 0, else their zlib compression.
    Array { kind: TypeCode, count: u32, encoding: u32, data: Vec<u8> },
    String(Vec<u8>),
    Raw(Vec<u8>),
}

/// What a [`FbxProperty`] holds.
pub enum FbxPropertyView {
    Short(i16),
    Bool(bool),
    Int(i32),
    Float(u32),
    Double(u64),
    Long(i64),
    Array { kind: TypeCode, count: u32, encoding: u32, data: Seq<u8> },
    String(Seq<u8>),
    Raw(Seq<u8>),
}

impl View for FbxProperty {
    type V = FbxPropertyView;

    open spec fn view(&self) -> FbxPropertyView {
        match self {
            FbxProperty::Short(v) => FbxPropertyView::Short(*v),
            FbxProperty::Bool(v) => FbxPropertyView::Bool(*v),
            FbxProperty::Int(v) => FbxPropertyView::Int(*v),
            FbxProperty::Float(v) => FbxPropertyView::Float(*v),
            FbxProperty::Double(v) => FbxPropertyView::Double(*v),
            FbxProperty::Long(v) => FbxPropertyView::Long(*v),
            FbxProperty::Array { kind, count, encoding, data } => FbxPropertyView::Array {
                kind: *kind,
                count: *count,
                encoding: *encoding,
                data: data@,
            },
            FbxProperty::String(v) => FbxPropertyView::String(v@),
            FbxProperty::Raw(v) => FbxPropertyView::Raw(v@),
        }
    }
}

/// What each property of a list holds.
pub open spec fn property_views(s: Seq<FbxProperty>) -> Seq<FbxPropertyView> {
    Seq::new(s.len(), |i: int| s[i]@)
}

/// The bytes that hold the items of an array: as many as the items take
/// where they are not encoded, else as many as the array declares.
pub open spec fn array_bytes(kind: TypeCode, count: u32, encoding: u32, compressed: u32) -> int {
    if encoding == 0 {
        count * kind.item_size()
    } else {
        compressed as int
    }
}

/// A value of `size` bytes after the type byte at `at`, if the file holds
/// it; else the error of a file that ends early.
pub open spec fn fixed(s: Seq<u8>, at: int, size: int, value: FbxPropertyView) -> Result<
    (FbxPropertyView, int),
    ImportError,
> {
    if at + 1 + size > s.len() {
        Err(ImportError::IncompleteData)
    } else {
        Ok((value, at + 1 + size))
    }
}

/// The property whose type byte is at `at`, and the place after it.
pub open spec fn property_at(s: Seq<u8>, at: int) -> Result<(FbxPropertyView, int), ImportError> {
    if at < 0 || at >= s.len() {
        Err(ImportError::IncompleteData)
    } else {
        match TypeCode::of_byte(s[at]) {
            None => Err(ImportError::MalformedDocument),
            Some(TypeCode::Short) => fixed(s, at, 2, FbxPropertyView::Short(le_i16(s, at + 1))),
            Some(TypeCode::Bool) => fixed(s, at, 1, FbxPropertyView::Bool(s[at + 1] % 2 == 1)),
            Some(TypeCode::Int) => fixed(s, at, 4, FbxPropertyView::Int(le_i32(s, at + 1))),
            Some(TypeCode::Float) => fixed(s, at, 4, FbxPropertyView::Float(le_u32(s, at + 1))),
            Some(TypeCode::Double) => fixed(s, at, 8, FbxPropertyView::Double(le_u64(s, at + 1))),
            Some(TypeCode::Long) => fixed(s, at, 8, FbxPropertyView::Long(le_i64(s, at + 1))),
            Some(TypeCode::String) => if at + 5 > s.len() || at + 5 + le_u32(s, at + 1) > s.len() {
                Err(ImportError::IncompleteData)
            } else {
                Ok(
                    (
                        FbxPropertyView::String(s.subrange(at + 5, at + 5 + le_u32(s, at + 1))),
                        at + 5 + le_u32(s, at + 1),
                    ),
                )
            },
            Some(TypeCode::Raw) => if at + 5 > s.len() || at + 5 + le_u32(s, at + 1) > s.len() {
                Err(ImportError::IncompleteData)
            } else {
                Ok(
                    (
                        FbxPropertyView::Raw(s.subrange(at + 5, at + 5 + le_u32(s, at + 1))),
                        at + 5 + le_u32(s, at + 1),
                    ),
                )
            },
            Some(kind) => {
                let count = le_u32(s, at + 1);
                let encoding = le_u32(s, at + 5);
                let size = array_bytes(kind, count, encoding, le_u32(s, at + 9));
                if at + 13 > s.len() || at + 13 + size > s.len() {
                    Err(ImportError::IncompleteData)
                } else {
                    Ok(
                        (
                            FbxPropertyView::Array {
                                kind,
                                count,
                                encoding,
                                data: s.subrange(at + 13, at + 13 + size),
                            },
                            at + 13 + size,
                        ),
                    )
                }
            },
        }
    }
}

/// The `count` properties from `at` on, and the place after them; the
/// error of the first that fails.
pub open spec fn properties_from(s: Seq<u8>, at: int, count: nat) -> Result<
    (Seq<FbxPropertyView>, int),
    ImportError,
>
    decreases count,
{
    if count == 0 {
        Ok((Seq::empty(), at))
    } else {
        match property_at(s, at) {
            Err(e) => Err(e),
            Ok((first, next)) => match properties_from(s, next, (count - 1) as nat) {
                Err(e) => Err(e),
                Ok((rest, end)) => Ok((seq![first] + rest, end)),
            },
        }
    }
}

/// A property lies inside the file and takes at least two bytes.
pub proof fn lemma_property_advances(s: Seq<u8>, at: int)
    ensures
        property_at(s, at) matches Ok((_, next)) ==> 0 <= at && at + 2 <= next <= s.len(),
{
}

/// Properties lie inside the file, one after the other.
pub proof fn lemma_properties_advance(s: Seq<u8>, at: int, count: nat)
    requires
        0 <= at <= s.len(),
    ensures
        properties_from(s, at, count) matches Ok((props, end)) ==> at <= end <= s.len()
            && props.len() == count,
    decreases count,
{
    if count > 0 {
        lemma_property_advances(s, at);
        match property_at(s, at) {
            Ok((_, next)) => {
                lemma_properties_advance(s, next, (count - 1) as nat);
            },
            Err(_) => {},
        }
    }
}

/// What the result of reading a property holds.
pub open spec fn property_result_view(r: Result<(FbxProperty, usize), ImportError>) -> Result<
    (FbxPropertyView, int),
    ImportError,
> {
    match r {
        Ok((p, next)) => Ok((p@, next as int)),
        Err(e) => Err(e),
    }
}

/// Reads the property whose type byte is at `at`.
pub fn parse_property(bytes: &[u8], at: usize) -> (r: Result<(FbxProperty, usize), ImportError>)
    ensures
        property_result_view(r) == property_at(bytes@, at as int),
{
    let len: usize = bytes.len();
    if at >= len {
        return Err(ImportError::IncompleteData);
    }
    let left: usize = len - at - 1;
    let kind = match TypeCode::from_byte(bytes[at]) {
        None => {
            return Err(ImportError::MalformedDocument);
        },
        Some(k) => k,
    };
    match kind {
        TypeCode::Short => if left < 2 {
            Err(ImportError::IncompleteData)
        } else {
            Ok((FbxProperty::Short(read_i16(bytes, at + 1)), at + 3))
        },
        TypeCode::Bool => if left < 1 {
            Err(ImportError::IncompleteData)
        } else {
            Ok((FbxProperty::Bool(bytes[at + 1] % 2 == 1), at + 2))
        },
        TypeCode::Int => if left < 4 {
            Err(ImportError::IncompleteData)
        } else {
            Ok((FbxProperty::Int(read_i32(bytes, at + 1)), at + 5))
        },
        TypeCode::Float => if left < 4 {
            Err(ImportError::IncompleteData)
        } else {
            Ok((FbxProperty::Float(read_u32(bytes, at + 1)), at + 5))
        },
        TypeCode::Double => if left < 8 {
            Err(ImportError::IncompleteData)
        } else {
            Ok((FbxProperty::Double(read_u64(bytes, at + 1)), at + 9))
        },
        TypeCode::Long => if left < 8 {
            Err(ImportError::IncompleteData)
        } else {
            Ok((FbxProperty::Long(read_i64(bytes, at + 1)), at + 9))
        },
        TypeCode::String => {
            if left < 4 {
                return Err(ImportError::IncompleteData);
            }
            let size: u32 = read_u32(bytes, at + 1);
            if size as u64 > (left - 4) as u64 {
                return Err(ImportError::IncompleteData);
            }
            let end: usize = at + 5 + size as usize;
            Ok((FbxProperty::String(copy_range(bytes, at + 5, end)), end))
        },
        TypeCode::Raw => {
            if left < 4 {
                return Err(ImportError::IncompleteData);
            }
            let size: u32 = read_u32(bytes, at + 1);
            if size as u64 > (left - 4) as u64 {
                return Err(ImportError::IncompleteData);
            }
            let end: usize = at + 5 + size as usize;
            Ok((FbxProperty::Raw(copy_range(bytes, at + 5, end)), end))
        },
        _ => {
            if left < 12 {
                return Err(ImportError::IncompleteData);
            }
            let count: u32 = read_u32(bytes, at + 1);
            let encoding: u32 = read_u32(bytes, at + 5);
            let compressed: u32 = read_u32(bytes, at + 9);
            let size: u64 = if encoding == 0 {
                count as u64 * kind.size_of_item()
            } else {
                compressed as u64
            };
            if size > (left - 12) as u64 {
                return Err(ImportError::IncompleteData);
            }
            let end: usize = at + 13 + size as usize;
            Ok(
                (
                    FbxProperty::Array {
                        kind,
                        count,
                        encoding,
                        data: copy_range(bytes, at + 13, end),
                    },
                    end,
                ),
            )
        },
    }
}

/// What the result of reading properties holds.
pub open spec fn properties_result_view(
    r: Result<(Vec<FbxProperty>, usize), ImportError>,
) -> Result<(Seq<FbxPropertyView>, int), ImportError> {
    match r {
        Ok((p, next)) => Ok((property_views(p@), next as int)),
        Err(e) => Err(e),
    }
}

proof fn lemma_properties_split(s: Seq<u8>, at: int, done: nat)
    requires
        0 <= at <= s.len(),
    ensures
        properties_from(s, at, (done + 1) as nat) == match properties_from(s, at, done) {
            Err(e) => Err(e),
            Ok((props, mid)) => match property_at(s, mid) {
                Err(e) => Err(e),
                Ok((p, end)) => Ok((props.push(p), end)),
            },
        },
    decreases done,
{
    if done == 0 {
        match property_at(s, at) {
            Ok((p, end)) => {
                assert(properties_from(s, end, 0) == Ok::<(Seq<FbxPropertyView>, int), ImportError>(
                    (Seq::empty(), end),
                ));
                assert(seq![p] + Seq::<FbxPropertyView>::empty() =~= Seq::<
                    FbxPropertyView,
                >::empty().push(p));
            },
            Err(_) => {},
        }
    } else {
        lemma_property_advances(s, at);
        match property_at(s, at) {
            Ok((first, next)) => {
                lemma_properties_split(s, next, (done - 1) as nat);
                match properties_from(s, next, (done - 1) as nat) {
                    Ok((props, mid)) => {
                        match property_at(s, mid) {
                            Ok((p, end)) => {
                                assert(seq![first] + props.push(p) =~= (seq![first] + props).push(
                                    p,
                                ));
                            },
                            Err(_) => {},
                        }
                    },
                    Err(_) => {},
                }
            },
            Err(_) => {},
        }
    }
}

proof fn lemma_properties_error(s: Seq<u8>, at: int, done: nat, count: nat)
    requires
        done <= count,
        0 <= at <= s.len(),
        properties_from(s, at, done) is Err,
    ensures
        properties_from(s, at, count) == properties_from(s, at, done),
    decreases count - done,
{
    if done < count {
        lemma_properties_split(s, at, done);
        lemma_properties_error(s, at, (done + 1) as nat, count);
    }
}

/// Reads the `num_properties` properties from `at` on.
pub fn parse_properties(bytes: &[u8], at: usize, num_properties: u32) -> (r: Result<
    (Vec<FbxProperty>, usize),
    ImportError,
>)
    ensures
        properties_result_view(r) == properties_from(bytes@, at as int, num_properties as nat),
{
    let mut properties: Vec<FbxProperty> = Vec::new();
    if at > bytes.len() {
        assert(property_views(properties@) =~= Seq::empty());
        if num_properties == 0 {
            return Ok((properties, at));
        }
        return Err(ImportError::IncompleteData);
    }
    let mut pos: usize = at;
    let mut i: u32 = 0;
    assert(property_views(properties@) =~= Seq::empty());
    while i < num_properties
        invariant
            i <= num_properties,
            at <= pos <= bytes@.len(),
            properties_from(bytes@, at as int, i as nat) == Ok::<
                (Seq<FbxPropertyView>, int),
                ImportError,
            >((property_views(properties@), pos as int)),
        decreases num_properties - i,
    {
        proof {
            lemma_properties_split(bytes@, at as int, i as nat);
            lemma_property_advances(bytes@, pos as int);
        }
        match parse_property(bytes, pos) {
            Ok((p, next)) => {
                let ghost before = property_views(properties@);
                properties.push(p);
                assert(property_views(properties@) =~= before.push(p@));
                pos = next;
            },
            Err(e) => {
                proof {
                    lemma_properties_error(
                        bytes@,
                        at as int,
                        (i + 1) as nat,
                        num_properties as nat,
                    );
                }
                return Err(e);
            },
        }
        i += 1;
    }
    Ok((properties, pos))
}

/// A record of the file: a name and properties. `depth` counts the records
/// that the record lies in, and `end_offset` is the place in the file where
/// the record and the records in it end.
#[derive(Clone, Debug)]
pub struct FbxRecord {
    pub depth: usize,
    pub name: Vec<u8>,
    pub end_offset: u32,
    pub properties: Vec<FbxProperty>,
}

/// What a [`FbxRecord`] holds.
pub struct FbxRecordView {
    pub depth: nat,
    pub name: Seq<u8>,
    pub end_offset: u32,
    pub properties: Seq<FbxPropertyView>,
}

impl View for FbxRecord {
    type V = FbxRecordView;

    open spec fn view(&self) -> FbxRecordView {
        FbxRecordView {
            depth: self.depth as nat,
            name: self.name@,
            end_offset: self.end_offset,
            properties: property_views(self.properties@),
        }
    }
}

/// What each record of a list holds.
pub open spec fn record_views(s: Seq<FbxRecord>) -> Seq<FbxRecordView> {
    Seq::new(s.len(), |i: int| s[i]@)
}

/// The open records that are still open at `pos`: those that end at or
/// before `pos` are closed, innermost first.
pub open spec fn still_open(ends: Seq<u32>, pos: int) -> Seq<u32>
    decreases ends.len(),
{
    if ends.len() > 0 && pos >= ends.last() {
        still_open(ends.drop_last(), pos)
    } else {
        ends
    }
}

/// A walk over the records of a file: the place of the next record, and
/// where the records that are open end, outermost first.
pub struct Walk {
    pub pos: int,
    pub ends: Seq<u32>,
}

/// One step of a walk.
pub struct WalkStep {
    pub result: Result<Option<FbxRecordView>, ImportError>,
    pub walk: Walk,
}

impl Walk {
    /// The walk at the first record of a file.
    pub open spec fn start() -> Walk {
        Walk { pos: FBX_HEADER_SIZE as int, ends: Seq::empty() }
    }

    /// The next record of the file, and the walk after it.
    ///
    /// A record whose name is empty ends a list of records: inside an open
    /// record it is passed over, outside of all records it ends the walk.
    /// A record with a name is given with its properties; it is open from
    /// then on, and the walk goes on behind its properties. A record that
    /// the file does not hold in full fails, and the walk stays at it.
    pub open spec fn step(self, s: Seq<u8>) -> WalkStep
        decreases s.len() - self.pos,
    {
        let open = still_open(self.ends, self.pos);
        let here = Walk { pos: self.pos, ends: open };
        if self.pos < 0 || self.pos + FBX_RECORD_HEADER_SIZE > s.len() {
            WalkStep { result: Err(ImportError::IncompleteData), walk: here }
        } else {
            let body = self.pos + FBX_RECORD_HEADER_SIZE;
            let name_len = s[self.pos + 12] as int;
            if name_len == 0 {
                if open.len() == 0 {
                    WalkStep { result: Ok(None), walk: Walk { pos: body, ends: open } }
                } else {
                    (Walk { pos: body, ends: open }).step(s)
                }
            } else if body + name_len > s.len() {
                WalkStep { result: Err(ImportError::IncompleteData), walk: here }
            } else {
                match properties_from(s, body + name_len, le_u32(s, self.pos + 4) as nat) {
                    Err(e) => WalkStep { result: Err(e), walk: here },
                    Ok((properties, after)) => WalkStep {
                        result: Ok(
                            Some(
                                FbxRecordView {
                                    depth: open.len(),
                                    name: s.subrange(body, body + name_len),
                                    end_offset: le_u32(s, self.pos),
                                    properties,
                                },
                            ),
                        ),
                        walk: Walk { pos: after, ends: open.push(le_u32(s, self.pos)) },
                    },
                }
            }
        }
    }

    /// The records from the walk's place on, up to the end of the walk; the
    /// error of the first step that fails.
    pub open spec fn records(self, s: Seq<u8>) -> Result<Seq<FbxRecordView>, ImportError>
        decreases s.len() - self.pos,
    {
        let st = self.step(s);
        match st.result {
            Err(e) => Err(e),
            Ok(None) => Ok(Seq::empty()),
            Ok(Some(record)) => {
                proof {
                    lemma_step_advances(self, s);
                }
                match st.walk.records(s) {
                    Err(e) => Err(e),
                    Ok(rest) => Ok(seq![record] + rest),
                }
            },
        }
    }
}

/// A step that gives a record or ends the walk moves on in the file and
/// stays inside it.
pub proof fn lemma_step_advances(w: Walk, s: Seq<u8>)
    ensures
        w.step(s).result is Ok ==> w.pos + FBX_RECORD_HEADER_SIZE <= w.step(s).walk.pos <= s.len(),
        w.step(s).result is Err ==> w.step(s).walk.pos >= w.pos,
    decreases s.len() - w.pos,
{
    let open = still_open(w.ends, w.pos);
    if !(w.pos < 0 || w.pos + FBX_RECORD_HEADER_SIZE > s.len()) {
        let body = w.pos + FBX_RECORD_HEADER_SIZE;
        let name_len = s[w.pos + 12] as int;
        if name_len == 0 {
            if open.len() != 0 {
                lemma_step_advances(Walk { pos: body, ends: open }, s);
            }
        } else if body + name_len <= s.len() {
            lemma_properties_advance(s, body + name_len, le_u32(s, w.pos + 4) as nat);
        }
    }
}

/// The binary FBX file's records, in file order.
pub open spec fn binary_records(s: Seq<u8>) -> Result<Seq<FbxRecordView>, ImportError> {
    Walk::start().records(s)
}

/// A reader of the records of a binary FBX file.
pub struct FbxRecordIterator {
    pos: usize,
    ends: Vec<u32>,
}

impl View for FbxRecordIterator {
    type V = Walk;

    closed spec fn view(&self) -> Walk {
        Walk { pos: self.pos as int, ends: self.ends@ }
    }
}

impl FbxRecordIterator {
    /// A reader at the first record of a file.
    pub fn new() -> (r: FbxRecordIterator)
        ensures
            r@ == Walk::start(),
    {
        FbxRecordIterator { pos: FBX_HEADER_SIZE, ends: Vec::new() }
    }

    fn close_records(&mut self)
        ensures
            final(self)@ == (Walk { pos: old(self)@.pos, ends: still_open(old(self)@.ends, old(self)@.pos) }),
    {
        loop
            invariant
                self.pos == old(self).pos,
                still_open(self.ends@, self.pos as int) == still_open(
                    old(self).ends@,
                    old(self).pos as int,
                ),
            ensures
                self.pos == old(self).pos,
                self.ends@ == still_open(old(self).ends@, old(self).pos as int),
            decreases self.ends@.len(),
        {
            let n: usize = self.ends.len();
            if n > 0 && self.pos as u64 >= self.ends[n - 1] as u64 {
                self.ends.pop();
            } else {
                break ;
            }
        }
    }

    /// The next record of the file, or none at the end of the records.
    pub fn next(&mut self, bytes: &[u8]) -> (r: Result<Option<FbxRecord>, ImportError>)
        ensures
            final(self)@ == old(self)@.step(bytes@).walk,
            match r {
                Ok(Some(record)) => old(self)@.step(bytes@).result == Ok::<
                    Option<FbxRecordView>,
                    ImportError,
                >(Some(record@)),
                Ok(None) => old(self)@.step(bytes@).result == Ok::<
                    Option<FbxRecordView>,
                    ImportError,
                >(None),
                Err(e) => old(self)@.step(bytes@).result == Err::<
                    Option<FbxRecordView>,
                    ImportError,
                >(e),
            },
    {
        let len: usize = bytes.len();
        loop
            invariant
                len == bytes@.len(),
                self@.step(bytes@) == old(self)@.step(bytes@),
            decreases len - self.pos,
        {
            let ghost before = self@;
            self.close_records();
            assert(still_open(self.ends@, self.pos as int) == self.ends@) by {
                lemma_still_open_twice(before.ends, before.pos);
            }
            assert(self@.step(bytes@) == before.step(bytes@));
            if len < FBX_RECORD_HEADER_SIZE || self.pos > len - FBX_RECORD_HEADER_SIZE {
                return Err(ImportError::IncompleteData);
            }
            let pos: usize = self.pos;
            let body: usize = pos + FBX_RECORD_HEADER_SIZE;
            let name_len: usize = bytes[pos + 12] as usize;
            if name_len == 0 {
                if self.ends.len() == 0 {
                    self.pos = body;
                    return Ok(None);
                }
                self.pos = body;
                continue ;
            }
            if name_len > len - body {
                return Err(ImportError::IncompleteData);
            }
            let end_offset: u32 = read_u32(bytes, pos);
            let num_properties: u32 = read_u32(bytes, pos + 4);
            match parse_properties(bytes, body + name_len, num_properties) {
                Err(e) => {
                    return Err(e);
                },
                Ok((properties, after)) => {
                    let record = FbxRecord {
                        depth: self.ends.len(),
                        name: copy_range(bytes, body, body + name_len),
                        end_offset,
                        properties,
                    };
                    proof {
                        lemma_properties_advance(
                            bytes@,
                            body + name_len,
                            num_properties as nat,
                        );
                    }
                    self.ends.push(end_offset);
                    self.pos = after;
                    return Ok(Some(record));
                },
            }
        }
    }
}

/// Closing the records that end at a place leaves none that ends there.
pub proof fn lemma_still_open_twice(ends: Seq<u32>, pos: int)
    ensures
        still_open(still_open(ends, pos), pos) == still_open(ends, pos),
    decreases ends.len(),
{
    if ends.len() > 0 && pos >= ends.last() {
        lemma_still_open_twice(ends.drop_last(), pos);
    }
}

/// What the result of reading all records holds.
pub open spec fn records_result_view(r: Result<Vec<FbxRecord>, ImportError>) -> Result<
    Seq<FbxRecordView>,
    ImportError,
> {
    match r {
        Ok(records) => Ok(record_views(records@)),
        Err(e) => Err(e),
    }
}

/// The records that follow the ones in `done`, joined to them.
pub open spec fn joined(done: Seq<FbxRecordView>, rest: Result<Seq<FbxRecordView>, ImportError>)
    -> Result<Seq<FbxRecordView>, ImportError> {
    match rest {
        Ok(rest) => Ok(done + rest),
        Err(e) => Err(e),
    }
}

/// Reads the records of a binary FBX file, in file order.
pub fn parse_binary_fbx(bytes: &[u8]) -> (r: Result<Vec<FbxRecord>, ImportError>)
    ensures
        records_result_view(r) == binary_records(bytes@),
{
    let mut records: Vec<FbxRecord> = Vec::new();
    let mut iter = FbxRecordIterator::new();
    assert(record_views(records@) =~= Seq::empty());
    assert(joined(Seq::empty(), binary_records(bytes@)) == binary_records(bytes@)) by {
        match binary_records(bytes@) {
            Ok(rest) => {
                assert(Seq::<FbxRecordView>::empty() + rest =~= rest);
            },
            Err(_) => {},
        }
    }
    loop
        invariant
            binary_records(bytes@) == joined(record_views(records@), iter@.records(bytes@)),
        decreases bytes@.len() - iter@.pos,
    {
        let ghost before = iter@;
        let ghost done = record_views(records@);
        proof {
            lemma_step_advances(before, bytes@);
        }
        match iter.next(bytes) {
            Err(e) => {
                return Err(e);
            },
            Ok(None) => {
                assert(done + Seq::<FbxRecordView>::empty() =~= done);
                return Ok(records);
            },
            Ok(Some(record)) => {
                records.push(record);
                assert(record_views(records@) =~= done.push(record@));
                proof {
                    match iter@.records(bytes@) {
                        Ok(rest) => {
                            assert(done + (seq![record@] + rest) =~= done.push(record@) + rest);
                        },
                        Err(_) => {},
                    }
                }
            },
        }
    }
}

/// Reads an FBX file: the records of a binary file. A file that does not
/// start as a binary file does is not supported.
pub fn load_fbx(bytes: &[u8]) -> (r: Result<Vec<FbxRecord>, ImportError>)
    ensures
        records_result_view(r) == if bytes@.len() >= 21 && bytes@.take(21)
            == "Kaydara FBX Binary  \0".spec_bytes() {
            binary_records(bytes@)
        } else {
            Err(ImportError::UnsupportedFormat)
        },
{
    if bytes.len() >= 21 && is_binary(vstd::slice::slice_subrange(bytes, 0, 21)) {
        parse_binary_fbx(bytes)
    } else {
        Err(ImportError::UnsupportedFormat)
    }
}

} // verus!
