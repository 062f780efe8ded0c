//! The records that a file holds.

use std::collections::HashMap;

use vstd::prelude::*;

use vstd::std_specs::convert::{FromSpec, FromSpecImpl, IntoSpec, TryFromSpecImpl};
use vstd::std_specs::iter::IteratorSpec;

use crate::default_palette::{default_colors, default_palette, rgba_color, DEFAULT_RGBA};
use crate::endian::{
    read_u32, read_u8, u32_bytes, u32_le, u32_le_bytes, u32_le_of_bytes, u32_of, write_u32,
};
use crate::reader::{Error as ReadError, ErrorView as ReadErrorView};
use crate::stream::{
    moved_on, read_exact, read_outcome, remaining, remaining_advanced, write_outcome, IoError,
    Read, Write,
};
pub use crate::scene::{Attributes, AttributesIter, Group, Layer, Shape, Transform};
use crate::writer::{Error as WriteError, ErrorView as WriteErrorView};

verus! {

/// The version of the file format that a file declares.
#[derive(Copy, Clone, Debug, PartialEq, Eq, PartialOrd, Ord, Hash, Structural)]
pub struct Version(pub u32);

impl Default for Version {
    /// The one version that this library reads and writes.
    fn default() -> (v: Version)
        ensures
            v == Version(150),
    {
        Version(150)
    }
}

impl Version {
    /// Whether this is the version that the library reads and writes.
    pub fn is_supported(&self) -> (r: bool)
        ensures
            r == (self.0 == 150),
    {
        self.0 == 150
    }

    /// Reads a version: four bytes, little-endian.
    pub fn read<R: Read>(reader: &mut R) -> (r: Result<Version, ReadError>)
        ensures
            read_outcome(*old(reader), *final(reader), 4, r is Ok),
            r matches Ok(v) ==> v == Version(u32_le(remaining(*old(reader)))),
            r matches Err(e) ==> e@ == ReadErrorView::Io(IoError::UnexpectedEof),
    {
        match read_u32(reader) {
            Ok(n) => Ok(Version(n)),
            Err(e) => Err(ReadError::Io(e)),
        }
    }

    /// Writes the version: four bytes, little-endian.
    pub fn write<W: Write>(&self, writer: &mut W) -> (r: Result<(), WriteError>)
        ensures
            write_outcome(*old(writer), *final(writer), u32_le_bytes(self.0), r is Ok),
            r matches Err(e) ==> e@ == WriteErrorView::Io(IoError::Other),
    {
        match write_u32(writer, self.0) {
            Ok(()) => Ok(()),
            Err(e) => Err(WriteError::Io(e)),
        }
    }
}

/// The signed value of a byte in two's complement.
pub open spec fn i8_of(b: u8) -> i8 {
    if b < 128 {
        b as i8
    } else {
        (b - 256) as i8
    }
}

/// The byte that holds a signed value in two's complement.
pub open spec fn u8_of(v: i8) -> u8 {
    if v >= 0 {
        v as u8
    } else {
        (v + 256) as u8
    }
}

/// The signed value of a byte in two's complement.
pub fn byte_to_i8(b: u8) -> (v: i8)
    ensures
        v == i8_of(b),
        u8_of(v) == b,
{
    if b < 128 {
        b as i8
    } else {
        (b as i16 - 256) as i8
    }
}

/// The byte that holds a signed value in two's complement.
pub fn i8_to_byte(v: i8) -> (b: u8)
    ensures
        b == u8_of(v),
        i8_of(b) == v,
{
    if v >= 0 {
        v as u8
    } else {
        (v as i16 + 256) as u8
    }
}

/// Three coordinates.
#[derive(Copy, Clone, Debug, Default, PartialEq, Eq, PartialOrd, Ord, Hash, Structural)]
pub struct Vector<T> {
    pub x: T,
    pub y: T,
    pub z: T,
}

/// A place inside a model.
pub type Point = Vector<i8>;

/// The extent of a model.
pub type Size = Vector<u32>;

impl<T> Vector<T> {
    /// The vector of three coordinates.
    pub fn new(x: T, y: T, z: T) -> (v: Vector<T>)
        ensures
            v == (Vector { x, y, z }),
    {
        Vector { x, y, z }
    }
}

/// The three bytes of a point.
pub open spec fn point_bytes(p: Point) -> Seq<u8> {
    seq![u8_of(p.x), u8_of(p.y), u8_of(p.z)]
}

/// The point that the first three bytes of `b` hold.
pub open spec fn point_of(b: Seq<u8>) -> Point {
    Vector { x: i8_of(b[0]), y: i8_of(b[1]), z: i8_of(b[2]) }
}

/// The twelve bytes of a size.
pub open spec fn size_bytes(s: Size) -> Seq<u8> {
    u32_le_bytes(s.x) + u32_le_bytes(s.y) + u32_le_bytes(s.z)
}

/// The size that the first twelve bytes of `b` hold.
pub open spec fn size_of(b: Seq<u8>) -> Size {
    Vector { x: u32_le(b), y: u32_le(b.skip(4)), z: u32_le(b.skip(8)) }
}

impl Vector<i8> {
    /// Reads a point: three signed bytes.
    pub fn read<R: Read>(reader: &mut R) -> (r: Result<Point, ReadError>)
        ensures
            read_outcome(*old(reader), *final(reader), 3, r is Ok),
            r matches Ok(p) ==> p == point_of(remaining(*old(reader))),
            r matches Err(e) ==> e@ == ReadErrorView::Io(IoError::UnexpectedEof),
    {
        match read_exact(reader, 3) {
            Ok(b) => Ok(
                Vector { x: byte_to_i8(b[0]), y: byte_to_i8(b[1]), z: byte_to_i8(b[2]) },
            ),
            Err(e) => Err(ReadError::Io(e)),
        }
    }

    /// Writes the point: three signed bytes.
    pub fn write<W: Write>(&self, writer: &mut W) -> (r: Result<(), WriteError>)
        ensures
            write_outcome(*old(writer), *final(writer), point_bytes(*self), r is Ok),
            r matches Err(e) ==> e@ == WriteErrorView::Io(IoError::Other),
    {
        let b: [u8; 3] = [i8_to_byte(self.x), i8_to_byte(self.y), i8_to_byte(self.z)];
        assert(b@ =~= point_bytes(*self));
        match writer.write_all(b.as_slice()) {
            Ok(()) => Ok(()),
            Err(e) => Err(WriteError::Io(e)),
        }
    }
}

impl Vector<u32> {
    /// Reads a size: three unsigned little-endian integers.
    pub fn read<R: Read>(reader: &mut R) -> (r: Result<Size, ReadError>)
        ensures
            read_outcome(*old(reader), *final(reader), 12, r is Ok),
            r matches Ok(s) ==> s == size_of(remaining(*old(reader))),
            r matches Err(e) ==> e@ == ReadErrorView::Io(IoError::UnexpectedEof),
    {
        match read_exact(reader, 12) {
            Ok(b) => {
                assert(b@.subrange(0, 4) =~= remaining(*old(reader)).subrange(0, 4));
                assert(b@.subrange(4, 8) =~= remaining(*old(reader)).skip(4).subrange(0, 4));
                assert(b@.subrange(8, 12) =~= remaining(*old(reader)).skip(8).subrange(0, 4));
                Ok(Vector { x: u32_of(&b, 0), y: u32_of(&b, 4), z: u32_of(&b, 8) })
            },
            Err(e) => Err(ReadError::Io(e)),
        }
    }

    /// Writes the size: three unsigned little-endian integers.
    pub fn write<W: Write>(&self, writer: &mut W) -> (r: Result<(), WriteError>)
        ensures
            write_outcome(*old(writer), *final(writer), size_bytes(*self), r is Ok),
            r matches Err(e) ==> e@ == WriteErrorView::Io(IoError::Other),
    {
        let mut b: Vec<u8> = Vec::new();
        push_u32(&mut b, self.x);
        push_u32(&mut b, self.y);
        push_u32(&mut b, self.z);
        assert(b@ =~= size_bytes(*self));
        match writer.write_all(b.as_slice()) {
            Ok(()) => Ok(()),
            Err(e) => Err(WriteError::Io(e)),
        }
    }
}

impl<T: Copy> From<[T; 3]> for Vector<T> {
    /// The vector of the three coordinates in order.
    fn from(v: [T; 3]) -> (r: Vector<T>) {
        Vector { x: v[0], y: v[1], z: v[2] }
    }
}

impl<T: Copy> FromSpecImpl<[T; 3]> for Vector<T> {
    open spec fn obeys_from_spec() -> bool {
        true
    }

    open spec fn from_spec(v: [T; 3]) -> Vector<T> {
        Vector { x: v[0], y: v[1], z: v[2] }
    }
}

impl<T> From<Vector<T>> for [T; 3] {
    /// The three coordinates in order.
    fn from(v: Vector<T>) -> (r: [T; 3]) {
        [v.x, v.y, v.z]
    }
}

impl<T> FromSpecImpl<Vector<T>> for [T; 3] {
    open spec fn obeys_from_spec() -> bool {
        true
    }

    open spec fn from_spec(v: Vector<T>) -> [T; 3] {
        [v.x, v.y, v.z]
    }
}

/// A reference into the palette. Index 0 stands for "fully transparent".
#[derive(Copy, Clone, Debug, Default, PartialEq, Eq, PartialOrd, Ord, Hash, Structural)]
pub struct ColorIndex(pub u8);

impl ColorIndex {
    /// Reads a colour index: one byte.
    pub fn read<R: Read>(reader: &mut R) -> (r: Result<ColorIndex, ReadError>)
        ensures
            read_outcome(*old(reader), *final(reader), 1, r is Ok),
            r matches Ok(c) ==> c == ColorIndex(remaining(*old(reader))[0]),
            r matches Err(e) ==> e@ == ReadErrorView::Io(IoError::UnexpectedEof),
    {
        match read_u8(reader) {
            Ok(b) => Ok(ColorIndex(b)),
            Err(e) => Err(ReadError::Io(e)),
        }
    }

    /// Writes the colour index: one byte.
    pub fn write<W: Write>(&self, writer: &mut W) -> (r: Result<(), WriteError>)
        ensures
            write_outcome(*old(writer), *final(writer), seq![self.0], r is Ok),
            r matches Err(e) ==> e@ == WriteErrorView::Io(IoError::Other),
    {
        let b: [u8; 1] = [self.0];
        assert(b@ =~= seq![self.0]);
        match writer.write_all(b.as_slice()) {
            Ok(()) => Ok(()),
            Err(e) => Err(WriteError::Io(e)),
        }
    }

    /// The index that an editor selects at first: 79, a light blue in the
    /// built-in palette.
    pub fn default_index() -> (c: ColorIndex)
        ensures
            c == ColorIndex(79),
    {
        ColorIndex(79)
    }
}

impl From<u8> for ColorIndex {
    fn from(x: u8) -> (c: ColorIndex) {
        ColorIndex(x)
    }
}

impl FromSpecImpl<u8> for ColorIndex {
    open spec fn obeys_from_spec() -> bool {
        true
    }

    open spec fn from_spec(x: u8) -> ColorIndex {
        ColorIndex(x)
    }
}

impl From<ColorIndex> for u8 {
    fn from(x: ColorIndex) -> (b: u8) {
        x.0
    }
}

impl FromSpecImpl<ColorIndex> for u8 {
    open spec fn obeys_from_spec() -> bool {
        true
    }

    open spec fn from_spec(x: ColorIndex) -> u8 {
        x.0
    }
}

/// One occupied cell of a model.
#[derive(Copy, Clone, Debug, PartialEq, Eq, PartialOrd, Ord, Hash, Structural)]
pub struct Voxel {
    pub point: Point,
    pub color_index: ColorIndex,
}

/// The four bytes of a voxel: the point, then the colour index.
pub open spec fn voxel_bytes(v: Voxel) -> Seq<u8> {
    seq![u8_of(v.point.x), u8_of(v.point.y), u8_of(v.point.z), v.color_index.0]
}

/// The voxel that the first four bytes of `b` hold.
pub open spec fn voxel_of(b: Seq<u8>) -> Voxel {
    Voxel { point: point_of(b), color_index: ColorIndex(b[3]) }
}

impl Voxel {
    /// A voxel at `point` with the colour `color_index`.
    pub fn new<P: Into<Point>, C: Into<ColorIndex>>(point: P, color_index: C) -> (v: Voxel)
        ensures
            <P as IntoSpec<Point>>::obeys_into_spec() ==> v.point == point.into_spec(),
            <C as IntoSpec<ColorIndex>>::obeys_into_spec() ==> v.color_index
                == color_index.into_spec(),
    {
        Voxel { point: point.into(), color_index: color_index.into() }
    }

    /// Reads a voxel: a point and a colour index, four bytes.
    pub fn read<R: Read>(reader: &mut R) -> (r: Result<Voxel, ReadError>)
        ensures
            read_outcome(*old(reader), *final(reader), 4, r is Ok),
            r matches Ok(v) ==> v == voxel_of(remaining(*old(reader))),
            r matches Err(e) ==> e@ == ReadErrorView::Io(IoError::UnexpectedEof),
    {
        match read_exact(reader, 4) {
            Ok(b) => Ok(
                Voxel {
                    point: Vector { x: byte_to_i8(b[0]), y: byte_to_i8(b[1]), z: byte_to_i8(b[2]) },
                    color_index: ColorIndex(b[3]),
                },
            ),
            Err(e) => Err(ReadError::Io(e)),
        }
    }

    /// Writes the voxel: four bytes.
    pub fn write<W: Write>(&self, writer: &mut W) -> (r: Result<(), WriteError>)
        ensures
            write_outcome(*old(writer), *final(writer), voxel_bytes(*self), r is Ok),
            r matches Err(e) ==> e@ == WriteErrorView::Io(IoError::Other),
    {
        let b: [u8; 4] = [
            i8_to_byte(self.point.x),
            i8_to_byte(self.point.y),
            i8_to_byte(self.point.z),
            self.color_index.0,
        ];
        assert(b@ =~= voxel_bytes(*self));
        match writer.write_all(b.as_slice()) {
            Ok(()) => Ok(()),
            Err(e) => Err(WriteError::Io(e)),
        }
    }
}

/// A voxel survives the way through its bytes.
pub proof fn voxel_round_trip(v: Voxel)
    ensures
        voxel_bytes(v).len() == 4,
        voxel_of(voxel_bytes(v)) == v,
{
}

/// A size survives the way through its bytes.
pub proof fn size_round_trip(s: Size)
    ensures
        size_bytes(s).len() == 12,
        size_of(size_bytes(s)) == s,
{
    u32_le_of_bytes(s.x);
    u32_le_of_bytes(s.y);
    u32_le_of_bytes(s.z);
    let b = size_bytes(s);
    assert(b.skip(4).take(4) =~= u32_le_bytes(s.y));
    assert(b.skip(8).take(4) =~= u32_le_bytes(s.z));
    assert(b.take(4) =~= u32_le_bytes(s.x));
}

/// What a model holds: its extent, and its voxels in the order of the file.
pub struct ModelView {
    pub size: Size,
    pub voxels: Seq<Voxel>,
}

/// One grid of voxels.
#[derive(Clone, Debug)]
pub struct Model {
    /// The extent of the model, in voxels.
    pub size: Size,
    /// The voxels, in the order of the file.
    pub voxels: Vec<Voxel>,
}

impl View for Model {
    type V = ModelView;

    open spec fn view(&self) -> ModelView {
        ModelView { size: self.size, voxels: self.voxels@ }
    }
}

impl Model {
    /// The first voxel at `point`, found by a search through all of them.
    pub fn get_voxel(&self, point: Point) -> (r: Option<&Voxel>)
        ensures
            match r {
                Some(voxel) => exists|i: int|
                    0 <= i < self.voxels@.len() && #[trigger] self.voxels@[i] == *voxel
                        && voxel.point == point && forall|j: int|
                        0 <= j < i ==> (#[trigger] self.voxels@[j]).point != point,
                None => forall|j: int|
                    0 <= j < self.voxels@.len() ==> (#[trigger] self.voxels@[j]).point != point,
            },
    {
        let mut i: usize = 0;
        while i < self.voxels.len()
            invariant
                i <= self.voxels@.len(),
                forall|j: int| 0 <= j < i ==> (#[trigger] self.voxels@[j]).point != point,
            decreases self.voxels@.len() - i,
        {
            if self.voxels[i].point == point {
                return Some(&self.voxels[i]);
            }
            i = i + 1;
        }
        None
    }
}

/// An RGBA colour of eight bits per channel.
#[derive(Copy, Clone, Debug, Default, PartialEq, Eq, PartialOrd, Ord, Hash, Structural)]
pub struct Color {
    pub r: u8,
    pub g: u8,
    pub b: u8,
    /// 0 is fully transparent, 255 fully opaque.
    pub a: u8,
}

/// The four bytes of a colour: red, green, blue, alpha.
pub open spec fn color_bytes(c: Color) -> Seq<u8> {
    seq![c.r, c.g, c.b, c.a]
}

/// The colour that the four bytes of `b` from `at` hold.
pub open spec fn color_at(b: Seq<u8>, at: int) -> Color {
    Color { r: b[at], g: b[at + 1], b: b[at + 2], a: b[at + 3] }
}

impl Color {
    /// The colour of four channels.
    pub fn new(r: u8, g: u8, b: u8, a: u8) -> (c: Color)
        ensures
            c == (Color { r, g, b, a }),
    {
        Color { r, g, b, a }
    }

    /// Reads a colour: red, green, blue, alpha, one byte each.
    pub fn read<R: Read>(reader: &mut R) -> (r: Result<Color, ReadError>)
        ensures
            read_outcome(*old(reader), *final(reader), 4, r is Ok),
            r matches Ok(c) ==> c == color_at(remaining(*old(reader)), 0),
            r matches Err(e) ==> e@ == ReadErrorView::Io(IoError::UnexpectedEof),
    {
        match read_exact(reader, 4) {
            Ok(b) => Ok(Color { r: b[0], g: b[1], b: b[2], a: b[3] }),
            Err(e) => Err(ReadError::Io(e)),
        }
    }

    /// Writes the colour: red, green, blue, alpha, one byte each.
    pub fn write<W: Write>(&self, writer: &mut W) -> (r: Result<(), WriteError>)
        ensures
            write_outcome(*old(writer), *final(writer), color_bytes(*self), r is Ok),
            r matches Err(e) ==> e@ == WriteErrorView::Io(IoError::Other),
    {
        let b: [u8; 4] = [self.r, self.g, self.b, self.a];
        assert(b@ =~= color_bytes(*self));
        match writer.write_all(b.as_slice()) {
            Ok(()) => Ok(()),
            Err(e) => Err(WriteError::Io(e)),
        }
    }

    /// The light blue that stands at index 79 of the built-in palette.
    pub fn light_blue() -> (c: Color)
        ensures
            c == (Color { r: 153, g: 204, b: 255, a: 255 }),
            c == default_colors()[79],
    {
        Color { r: 153, g: 204, b: 255, a: 255 }
    }
}

impl From<Color> for [u8; 4] {
    /// The four channels: red, green, blue, alpha.
    fn from(color: Color) -> (r: [u8; 4]) {
        [color.r, color.g, color.b, color.a]
    }
}

impl FromSpecImpl<Color> for [u8; 4] {
    open spec fn obeys_from_spec() -> bool {
        true
    }

    open spec fn from_spec(color: Color) -> [u8; 4] {
        [color.r, color.g, color.b, color.a]
    }
}

impl From<[u8; 4]> for Color {
    /// The colour of four channels: red, green, blue, alpha.
    fn from(color: [u8; 4]) -> (r: Color) {
        Color { r: color[0], g: color[1], b: color[2], a: color[3] }
    }
}

impl FromSpecImpl<[u8; 4]> for Color {
    open spec fn obeys_from_spec() -> bool {
        true
    }

    open spec fn from_spec(color: [u8; 4]) -> Color {
        Color { r: color[0], g: color[1], b: color[2], a: color[3] }
    }
}

/// A colour survives the way through its four channels, and four channels
/// survive the way through their colour.
pub proof fn color_channels_round_trip(color: Color, channels: [u8; 4])
    ensures
        <Color as FromSpec<[u8; 4]>>::from_spec(<[u8; 4] as FromSpec<Color>>::from_spec(color))
            == color,
        <[u8; 4] as FromSpec<Color>>::from_spec(<Color as FromSpec<[u8; 4]>>::from_spec(channels))
            == channels,
{
    assert(<[u8; 4] as FromSpec<Color>>::from_spec(
        <Color as FromSpec<[u8; 4]>>::from_spec(channels),
    ) =~= channels);
}

/// The 1020 bytes that a palette is stored as: the colours of the slots 1 to
/// 255 in order. Slot 0 is not stored.
pub open spec fn palette_bytes(colors: Seq<Color>) -> Seq<u8> {
    Seq::new(1020, |k: int| color_bytes(colors[k / 4 + 1])[k % 4])
}

/// The palette that 1020 stored bytes stand for: slot 0 is that of the
/// built-in palette, the slots 1 to 255 hold the stored colours in order.
pub open spec fn palette_of(b: Seq<u8>) -> Seq<Color> {
    Seq::new(
        256,
        |i: int|
            if i == 0 {
                default_colors()[0]
            } else {
                color_at(b, 4 * (i - 1))
            },
    )
}

/// A table of 256 colours, indexed by the colour index of a voxel.
#[derive(Clone, Debug)]
pub struct Palette {
    /// The colours. The one in slot 0 is never written to a file.
    pub colors: [Color; 256],
}

impl View for Palette {
    type V = Seq<Color>;

    open spec fn view(&self) -> Seq<Color> {
        self.colors@
    }
}

impl Default for Palette {
    /// The built-in palette.
    fn default() -> (p: Palette)
        ensures
            p@ == default_colors(),
    {
        default_palette()
    }
}

impl Palette {
    /// Whether this is the built-in palette.
    pub fn is_default(&self) -> (r: bool)
        ensures
            r == (self@ == default_colors()),
    {
        let mut i: usize = 0;
        while i < 256
            invariant
                i <= 256,
                forall|k: int| 0 <= k < i ==> self@[k] == default_colors()[k],
            decreases 256 - i,
        {
            if self.colors[i] != rgba_color(DEFAULT_RGBA[i]) {
                return false;
            }
            i = i + 1;
        }
        assert(self@ =~= default_colors());
        true
    }

    /// The colour of an index. Every index has one.
    pub fn get(&self, color_index: ColorIndex) -> (c: Color)
        ensures
            c == self@[color_index.0 as int],
    {
        self.colors[color_index.0 as usize]
    }

    /// Walks all 256 entries in order.
    pub fn iter(&self) -> (it: PaletteIter<'_>)
        ensures
            it.colors() == self@,
            it.index() == 0,
    {
        PaletteIter { colors: &self.colors, index: 0 }
    }

    /// Reads a palette: 255 colours for the slots 1 to 255. Slot 0 is that
    /// of the built-in palette.
    pub fn read<R: Read>(reader: &mut R) -> (r: Result<Palette, ReadError>)
        ensures
            read_outcome(*old(reader), *final(reader), 1020, r is Ok),
            r matches Ok(p) ==> p@ == palette_of(remaining(*old(reader))),
            r matches Err(e) ==> e@ == ReadErrorView::Io(IoError::UnexpectedEof),
    {
        let b = match read_exact(reader, 1020) {
            Ok(b) => b,
            Err(e) => {
                return Err(ReadError::Io(e));
            },
        };
        let mut palette = default_palette();
        let mut i: usize = 0;
        while i < 255
            invariant
                i <= 255,
                b@.len() == 1020,
                palette@[0] == default_colors()[0],
                forall|k: int| 1 <= k <= i ==> palette@[k] == color_at(b@, 4 * (k - 1)),
            decreases 255 - i,
        {
            let c = Color { r: b[4 * i], g: b[4 * i + 1], b: b[4 * i + 2], a: b[4 * i + 3] };
            palette.colors[i + 1] = c;
            i = i + 1;
        }
        assert(palette@ =~= palette_of(remaining(*old(reader))));
        Ok(palette)
    }

    /// Writes the palette: the colours of the slots 1 to 255. The colour in
    /// slot 0 is not written.
    pub fn write<W: Write>(&self, writer: &mut W) -> (r: Result<(), WriteError>)
        ensures
            write_outcome(*old(writer), *final(writer), palette_bytes(self@), r is Ok),
            r matches Err(e) ==> e@ == WriteErrorView::Io(IoError::Other),
    {
        let mut b: Vec<u8> = Vec::new();
        let mut i: usize = 1;
        while i < 256
            invariant
                1 <= i <= 256,
                b@.len() == 4 * (i - 1),
                forall|k: int| 0 <= k < b@.len() ==> b@[k] == color_bytes(self@[k / 4 + 1])[k % 4],
            decreases 256 - i,
        {
            let c = self.colors[i];
            b.push(c.r);
            b.push(c.g);
            b.push(c.b);
            b.push(c.a);
            i = i + 1;
        }
        assert(b@ =~= palette_bytes(self@));
        match writer.write_all(b.as_slice()) {
            Ok(()) => Ok(()),
            Err(e) => Err(WriteError::Io(e)),
        }
    }
}

/// A palette's stored bytes do not depend on its slot 0, and reading them
/// back gives the colours of the slots 1 to 255 as they were, with the
/// built-in, transparent colour in slot 0.
pub proof fn palette_round_trip(colors: Seq<Color>)
    requires
        colors.len() == 256,
    ensures
        palette_bytes(colors).len() == 1020,
        forall|c: Color| palette_bytes(colors.update(0, c)) == palette_bytes(colors),
        palette_of(palette_bytes(colors)) == colors.update(0, default_colors()[0]),
        palette_of(palette_bytes(colors))[0] == (Color { r: 0, g: 0, b: 0, a: 0 }),
{
    assert forall|c: Color| palette_bytes(colors.update(0, c)) == palette_bytes(colors) by {
        assert(palette_bytes(colors.update(0, c)) =~= palette_bytes(colors));
    }
    assert(palette_of(palette_bytes(colors)) =~= colors.update(0, default_colors()[0]));
}

/// A walk over the entries of a palette, in order.
#[derive(Debug)]
pub struct PaletteIter<'a> {
    colors: &'a [Color; 256],
    index: usize,
}

impl<'a> PaletteIter<'a> {
    /// The colours that are walked.
    pub closed spec fn colors(&self) -> Seq<Color> {
        self.colors@
    }

    /// The index of the entry that comes next.
    pub closed spec fn index(&self) -> nat {
        self.index as nat
    }

    /// The next entry: its index and its colour. There is none after the
    /// 256th.
    pub fn next(&mut self) -> (r: Option<(ColorIndex, Color)>)
        ensures
            final(self).colors() == old(self).colors(),
            old(self).index() < 256 ==> r == Some(
                (ColorIndex(old(self).index() as u8), old(self).colors()[old(self).index() as int]),
            ) && final(self).index() == old(self).index() + 1,
            old(self).index() >= 256 ==> r is None && final(self).index() == old(self).index(),
    {
        if self.index < 256 {
            let i = self.index;
            self.index = i + 1;
            Some((ColorIndex(i as u8), self.colors[i]))
        } else {
            None
        }
    }
}

/// The kind of a material.
#[derive(Copy, Clone, Debug, PartialEq, Eq, PartialOrd, Ord, Hash, Structural)]
pub enum MaterialType {
    Diffuse,
    Metal,
    Glass,
    Emissive,
}

/// A byte that names no kind of material.
#[derive(Copy, Clone, Debug, PartialEq, Eq, Structural)]
pub struct MaterialTryFromError(pub u8);

/// The kind of material that a byte names, if any.
pub open spec fn material_type_of(x: u8) -> Result<MaterialType, MaterialTryFromError> {
    if x == 0 {
        Ok(MaterialType::Diffuse)
    } else if x == 1 {
        Ok(MaterialType::Metal)
    } else if x == 2 {
        Ok(MaterialType::Glass)
    } else if x == 3 {
        Ok(MaterialType::Emissive)
    } else {
        Err(MaterialTryFromError(x))
    }
}

/// The byte that names a kind of material.
pub open spec fn material_type_byte(ty: MaterialType) -> u8 {
    match ty {
        MaterialType::Diffuse => 0,
        MaterialType::Metal => 1,
        MaterialType::Glass => 2,
        MaterialType::Emissive => 3,
    }
}

impl TryFrom<u8> for MaterialType {
    type Error = MaterialTryFromError;

    fn try_from(x: u8) -> (r: Result<MaterialType, MaterialTryFromError>) {
        if x == 0 {
            Ok(MaterialType::Diffuse)
        } else if x == 1 {
            Ok(MaterialType::Metal)
        } else if x == 2 {
            Ok(MaterialType::Glass)
        } else if x == 3 {
            Ok(MaterialType::Emissive)
        } else {
            Err(MaterialTryFromError(x))
        }
    }
}

impl TryFromSpecImpl<u8> for MaterialType {
    open spec fn obeys_try_from_spec() -> bool {
        true
    }

    open spec fn try_from_spec(x: u8) -> Result<MaterialType, MaterialTryFromError> {
        material_type_of(x)
    }
}

impl From<MaterialType> for u8 {
    fn from(ty: MaterialType) -> (b: u8) {
        match ty {
            MaterialType::Diffuse => 0,
            MaterialType::Metal => 1,
            MaterialType::Glass => 2,
            MaterialType::Emissive => 3,
        }
    }
}

impl FromSpecImpl<MaterialType> for u8 {
    open spec fn obeys_from_spec() -> bool {
        true
    }

    open spec fn from_spec(ty: MaterialType) -> u8 {
        material_type_byte(ty)
    }
}

/// A kind of material survives the way through its byte.
pub proof fn material_type_round_trip(ty: MaterialType)
    ensures
        material_type_of(material_type_byte(ty)) == Ok::<MaterialType, MaterialTryFromError>(ty),
{
}

impl MaterialType {
    /// Reads the kind of a material: one byte, which has to name a kind.
    pub fn read<R: Read>(reader: &mut R) -> (r: Result<MaterialType, ReadError>)
        ensures
            read_outcome(*old(reader), *final(reader), 1, remaining(*old(reader)).len() >= 1),
            match r {
                Ok(ty) => remaining(*old(reader)).len() >= 1 && material_type_of(
                    remaining(*old(reader))[0],
                ) == Ok::<MaterialType, MaterialTryFromError>(ty),
                Err(e) => if remaining(*old(reader)).len() >= 1 {
                    material_type_of(remaining(*old(reader))[0]) is Err && e@
                        == ReadErrorView::InvalidMaterial {
                        material_type: remaining(*old(reader))[0],
                    }
                } else {
                    e@ == ReadErrorView::Io(IoError::UnexpectedEof)
                },
            },
    {
        let x = match read_u8(reader) {
            Ok(x) => x,
            Err(e) => {
                return Err(ReadError::Io(e));
            },
        };
        match MaterialType::try_from(x) {
            Ok(ty) => Ok(ty),
            Err(e) => Err(ReadError::InvalidMaterial { material_type: e.0 }),
        }
    }

    /// Writes the kind of a material: one byte.
    pub fn write<W: Write>(&self, writer: &mut W) -> (r: Result<(), WriteError>)
        ensures
            write_outcome(
                *old(writer),
                *final(writer),
                seq![material_type_byte(*self)],
                r is Ok,
            ),
            r matches Err(e) ==> e@ == WriteErrorView::Io(IoError::Other),
    {
        let b: [u8; 1] = [u8::from(*self)];
        assert(b@ =~= seq![material_type_byte(*self)]);
        match writer.write_all(b.as_slice()) {
            Ok(()) => Ok(()),
            Err(e) => Err(WriteError::Io(e)),
        }
    }
}

/// The shading of one slot of the palette. A number with a fraction is held
/// as the 32 bits of its single-precision form.
#[derive(Copy, Clone, Debug, PartialEq, Eq, Structural)]
pub struct Material {
    /// The kind of material.
    pub ty: MaterialType,
    /// How much of the kind is blended in, or how strongly light is emitted.
    pub weight: u32,
    pub plastic: Option<u32>,
    pub roughness: Option<u32>,
    pub specular: Option<u32>,
    pub ior: Option<u32>,
    pub attenuation: Option<u32>,
    pub power: Option<u32>,
    pub glow: Option<u32>,
    pub is_total_power: bool,
}

/// The bit of the flags that says whether the optional value `k` of a
/// material is present.
pub open spec fn material_bit(k: nat) -> u32 {
    if k == 0 {
        1
    } else if k == 1 {
        2
    } else if k == 2 {
        4
    } else if k == 3 {
        8
    } else if k == 4 {
        16
    } else if k == 5 {
        32
    } else {
        64
    }
}

/// Whether the optional value `k` of a material is present.
pub open spec fn material_has(flags: u32, k: nat) -> bool {
    flags & material_bit(k) != 0
}

/// How many of the first `k` optional values of a material are present.
pub open spec fn material_values_before(flags: u32, k: nat) -> nat
    decreases k,
{
    if k == 0 {
        0
    } else {
        material_values_before(flags, (k - 1) as nat) + if material_has(flags, (k - 1) as nat) {
            1nat
        } else {
            0nat
        }
    }
}

/// The optional value `k` of the material record in `b`: it is present
/// where its bit is set, and stands behind the values before it.
pub open spec fn material_value(b: Seq<u8>, flags: u32, k: nat) -> Option<u32> {
    if material_has(flags, k) {
        Some(u32_le(b.skip(9 + 4 * material_values_before(flags, k) as int)))
    } else {
        None
    }
}

/// The length of a material record with the given flags.
pub open spec fn material_len(flags: u32) -> nat {
    9 + 4 * material_values_before(flags, 7)
}

/// The material that the record at the start of `b` holds: the kind, one
/// byte; the weight and the flags, four bytes each; then the optional
/// values whose bits are set, four bytes each.
pub open spec fn material_of(b: Seq<u8>) -> Result<Material, ReadErrorView> {
    if b.len() < 1 {
        Err(ReadErrorView::Io(IoError::UnexpectedEof))
    } else {
        match material_type_of(b[0]) {
            Err(e) => Err(ReadErrorView::InvalidMaterial { material_type: b[0] }),
            Ok(ty) => if b.len() < 9 || b.len() < material_len(u32_le(b.skip(5))) {
                Err(ReadErrorView::Io(IoError::UnexpectedEof))
            } else {
                let flags = u32_le(b.skip(5));
                Ok(
                    Material {
                        ty,
                        weight: u32_le(b.skip(1)),
                        plastic: material_value(b, flags, 0),
                        roughness: material_value(b, flags, 1),
                        specular: material_value(b, flags, 2),
                        ior: material_value(b, flags, 3),
                        attenuation: material_value(b, flags, 4),
                        power: material_value(b, flags, 5),
                        glow: material_value(b, flags, 6),
                        is_total_power: flags & 128 != 0,
                    },
                )
            },
        }
    }
}

/// Reads four bytes where `present`, and nothing where not.
fn read_optional<R: Read>(reader: &mut R, present: bool) -> (r: Result<Option<u32>, IoError>)
    ensures
        read_outcome(
            *old(reader),
            *final(reader),
            if present {
                4
            } else {
                0
            },
            r is Ok,
        ),
        r matches Ok(v) ==> v == if present {
            Some(u32_le(remaining(*old(reader))))
        } else {
            None
        },
        r matches Err(e) ==> e == IoError::UnexpectedEof,
{
    if present {
        match read_u32(reader) {
            Ok(v) => Ok(Some(v)),
            Err(e) => Err(e),
        }
    } else {
        Ok(None)
    }
}

/// Reads the optional value `k` of a material, which stands at the
/// reader's position.
fn read_material_value<R: Read>(
    reader: &mut R,
    flags: u32,
    k: usize,
    Ghost(record): Ghost<Seq<u8>>,
) -> (r: Result<Option<u32>, IoError>)
    requires
        k < 7,
        9 + 4 * material_values_before(flags, k as nat) <= record.len(),
        remaining(*old(reader)) == record.skip(
            9 + 4 * material_values_before(flags, k as nat) as int,
        ),
    ensures
        r is Ok <==> 9 + 4 * material_values_before(flags, (k + 1) as nat) <= record.len(),
        r matches Ok(v) ==> v == material_value(record, flags, k as nat) && remaining(
            *final(reader),
        ) == record.skip(9 + 4 * material_values_before(flags, (k + 1) as nat) as int),
        r matches Err(e) ==> e == IoError::UnexpectedEof,
        moved_on(*old(reader), *final(reader)),
{
    let bit: u32 = if k == 0 {
        1
    } else if k == 1 {
        2
    } else if k == 2 {
        4
    } else if k == 3 {
        8
    } else if k == 4 {
        16
    } else if k == 5 {
        32
    } else {
        64
    };
    let ghost before = *reader;
    let r = read_optional(reader, flags & bit != 0);
    proof {
        let at = 9 + 4 * material_values_before(flags, k as nat) as int;
        assert(material_values_before(flags, (k + 1) as nat) == material_values_before(
            flags,
            k as nat,
        ) + if material_has(flags, k as nat) {
            1nat
        } else {
            0nat
        });
        if r is Ok {
            remaining_advanced(
                before,
                *reader,
                if flags & bit != 0 {
                    4
                } else {
                    0
                },
            );
            if flags & bit != 0 {
                assert(record.skip(at).skip(4) =~= record.skip(at + 4));
            } else {
                assert(record.skip(at).skip(0) =~= record.skip(at));
            }
        }
    }
    r
}

/// The optional values of a material take more room the more of them are
/// counted.
pub proof fn material_values_grow(flags: u32, fewer: nat, more: nat)
    requires
        fewer <= more,
    ensures
        material_values_before(flags, fewer) <= material_values_before(flags, more),
    decreases more,
{
    if fewer < more {
        material_values_grow(flags, fewer, (more - 1) as nat);
    }
}

impl Material {
    /// Reads a material: the kind, the weight, the flags, and the optional
    /// values that the flags announce. A value that is not announced is
    /// absent, not zero.
    pub fn read<R: Read>(reader: &mut R) -> (r: Result<Material, ReadError>)
        ensures
            match material_of(remaining(*old(reader))) {
                Ok(material) => r == Ok::<Material, ReadError>(material) && remaining(
                    *final(reader),
                ) == remaining(*old(reader)).skip(
                    material_len(u32_le(remaining(*old(reader)).skip(5))) as int,
                ),
                Err(e) => r matches Err(got) && got@ == e,
            },
            moved_on(*old(reader), *final(reader)),
    {
        let ghost record = remaining(*reader);
        let ghost start = *reader;
        let ty = match MaterialType::read(reader) {
            Ok(ty) => ty,
            Err(e) => {
                return Err(e);
            },
        };
        proof {
            remaining_advanced(start, *reader, 1);
        }
        let ghost after_type = *reader;
        let weight = match read_u32(reader) {
            Ok(weight) => weight,
            Err(e) => {
                return Err(ReadError::Io(e));
            },
        };
        proof {
            remaining_advanced(after_type, *reader, 4);
            assert(record.skip(1).skip(4) =~= record.skip(5));
        }
        let ghost after_weight = *reader;
        let flags = match read_u32(reader) {
            Ok(flags) => flags,
            Err(e) => {
                return Err(ReadError::Io(e));
            },
        };
        proof {
            remaining_advanced(after_weight, *reader, 4);
            assert(record.skip(5).skip(4) =~= record.skip(9));
            material_values_grow(flags, 1, 7);
            material_values_grow(flags, 2, 7);
            material_values_grow(flags, 3, 7);
            material_values_grow(flags, 4, 7);
            material_values_grow(flags, 5, 7);
            material_values_grow(flags, 6, 7);
        }
        let plastic = match read_material_value(reader, flags, 0, Ghost(record)) {
            Ok(v) => v,
            Err(e) => {
                return Err(ReadError::Io(e));
            },
        };
        let roughness = match read_material_value(reader, flags, 1, Ghost(record)) {
            Ok(v) => v,
            Err(e) => {
                return Err(ReadError::Io(e));
            },
        };
        let specular = match read_material_value(reader, flags, 2, Ghost(record)) {
            Ok(v) => v,
            Err(e) => {
                return Err(ReadError::Io(e));
            },
        };
        let ior = match read_material_value(reader, flags, 3, Ghost(record)) {
            Ok(v) => v,
            Err(e) => {
                return Err(ReadError::Io(e));
            },
        };
        let attenuation = match read_material_value(reader, flags, 4, Ghost(record)) {
            Ok(v) => v,
            Err(e) => {
                return Err(ReadError::Io(e));
            },
        };
        let power = match read_material_value(reader, flags, 5, Ghost(record)) {
            Ok(v) => v,
            Err(e) => {
                return Err(ReadError::Io(e));
            },
        };
        let glow = match read_material_value(reader, flags, 6, Ghost(record)) {
            Ok(v) => v,
            Err(e) => {
                return Err(ReadError::Io(e));
            },
        };
        Ok(
            Material {
                ty,
                weight,
                plastic,
                roughness,
                specular,
                ior,
                attenuation,
                power,
                glow,
                is_total_power: flags & 128 != 0,
            },
        )
    }
}

/// The materials of the slots of a palette.
#[derive(Clone, Debug)]
pub struct MaterialPalette {
    materials: HashMap<u8, Material>,
}

impl View for MaterialPalette {
    type V = Map<u8, Material>;

    closed spec fn view(&self) -> Map<u8, Material> {
        self.materials@
    }
}

impl Default for MaterialPalette {
    /// No materials.
    fn default() -> (r: MaterialPalette)
        ensures
            r@ == Map::<u8, Material>::empty(),
    {
        MaterialPalette { materials: HashMap::new() }
    }
}

impl MaterialPalette {
    /// Whether there is no material.
    pub fn is_empty(&self) -> (r: bool)
        ensures
            r == (self@.len() == 0),
    {
        self.materials.is_empty()
    }

    /// The material of a slot, if it has one.
    pub fn get(&self, material_id: ColorIndex) -> (r: Option<&Material>)
        ensures
            match r {
                Some(material) => self@.contains_key(material_id.0) && self@[material_id.0]
                    == *material,
                None => !self@.contains_key(material_id.0),
            },
    {
        broadcast use vstd::std_specs::hash::group_hash_axioms;

        self.materials.get(&material_id.0)
    }

    /// The slots that have a material, each once and in no particular
    /// order, with their materials.
    pub fn iter(&self) -> (r: Vec<(ColorIndex, Material)>)
        ensures
            r@.len() == self@.len(),
            forall|i: int|
                0 <= i < r@.len() ==> self@.contains_key((#[trigger] r@[i]).0.0) && self@[r@[i].0.0]
                    == r@[i].1,
            forall|i: int, j: int|
                0 <= i < j < r@.len() ==> (#[trigger] r@[i]).0 != (#[trigger] r@[j]).0,
    {
        broadcast use vstd::std_specs::hash::group_hash_axioms;

        let mut entries: Vec<(ColorIndex, Material)> = Vec::new();
        let walk = self.materials.iter();
        for pair in it: walk
            invariant
                entries@.len() == it.index(),
                forall|i: int|
                    0 <= i < entries@.len() ==> (#[trigger] entries@[i]).0.0 == *it.seq()[i].0
                        && entries@[i].1 == *it.seq()[i].1,
        {
            entries.push((ColorIndex(*pair.0), *pair.1));
        }
        proof {
            let pairs = vstd::std_specs::hash::spec_hash_map_iter(&self.materials).remaining();
            assert forall|i: int, j: int| 0 <= i < j < entries@.len() implies (
            #[trigger] entries@[i]).0 != (#[trigger] entries@[j]).0 by {
                if entries@[i].0 == entries@[j].0 {
                    assert(self@.contains_key(*pairs[i].0) && self@[*pairs[i].0] == *pairs[i].1);
                    assert(self@.contains_key(*pairs[j].0) && self@[*pairs[j].0] == *pairs[j].1);
                    assert(pairs[i] == pairs[j]);
                }
            }
        }
        entries
    }
}

/// Appends the four bytes of `n`, least significant first.
fn push_u32(b: &mut Vec<u8>, n: u32)
    ensures
        final(b)@ == old(b)@ + u32_le_bytes(n),
{
    let bytes = u32_bytes(n);
    b.push(bytes[0]);
    b.push(bytes[1]);
    b.push(bytes[2]);
    b.push(bytes[3]);
    assert(b@ =~= old(b)@ + u32_le_bytes(n));
}

} // verus!
