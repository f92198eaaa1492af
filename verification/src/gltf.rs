//! The binary side of a glTF scene file: buffers, views into them, and the
//! numbers that accessors read out of the views.
//!
//! A single-precision number is read as its bit pattern.

use vstd::bytes::{
    spec_u16_from_le_bytes, spec_u32_from_le_bytes, u16_from_le_bytes, u32_from_le_bytes,
};
use vstd::prelude::*;
use vstd::slice::{slice_subrange, slice_to_vec};
use vstd::utf8::encode_utf8;
use crate::vec3::{Color, Vec3};

verus! {

/// A window into one of the file's buffers.
#[derive(Clone, Copy, Debug, PartialEq, Eq, Structural)]
pub struct GLTFBufferView {
    /// The place of the buffer in the file's list of buffers.
    pub buffer: usize,
    pub byte_length: usize,
    pub byte_offset: usize,
}

impl GLTFBufferView {
    /// The view lies within one of `buffers`.
    pub open spec fn fits(self, buffers: Seq<Vec<u8>>) -> bool {
        &&& self.buffer < buffers.len()
        &&& self.byte_offset + self.byte_length <= buffers[self.buffer as int]@.len()
    }

    /// The bytes that the view shows.
    pub open spec fn bytes(self, buffers: Seq<Vec<u8>>) -> Seq<u8> {
        buffers[self.buffer as int]@.subrange(
            self.byte_offset as int,
            self.byte_offset + self.byte_length,
        )
    }
}

impl GLTFBufferView {
    /// Whether the view lies within one of `buffers`.
    pub fn fits_in(&self, buffers: &[Vec<u8>]) -> (r: bool)
        ensures
            r == self.fits(buffers@),
    {
        if self.buffer >= buffers.len() {
            return false;
        }
        let available = buffers[self.buffer].len();
        self.byte_offset <= available && self.byte_length <= available - self.byte_offset
    }
}

/// The bytes that each view shows, in the order of the views.
pub fn gltf_buffer_views_to_bytes(buffer_views: &[GLTFBufferView], buffers: &[Vec<u8>]) -> (out:
    Vec<Vec<u8>>)
    requires
        forall|i: int| 0 <= i < buffer_views.len() ==> (#[trigger] buffer_views[i]).fits(buffers@),
    ensures
        out.len() == buffer_views.len(),
        forall|i: int|
            0 <= i < buffer_views.len() ==> (#[trigger] out[i])@ == buffer_views[i].bytes(buffers@),
{
    let mut out: Vec<Vec<u8>> = Vec::new();
    let mut k: usize = 0;
    while k < buffer_views.len()
        invariant
            k <= buffer_views.len(),
            out.len() == k,
            forall|i: int|
                0 <= i < buffer_views.len() ==> (#[trigger] buffer_views[i]).fits(buffers@),
            forall|i: int| 0 <= i < k ==> (#[trigger] out[i])@ == buffer_views[i].bytes(buffers@),
        decreases buffer_views.len() - k,
    {
        let bv = buffer_views[k];
        assert(bv.fits(buffers@));
        let buffer = &buffers[bv.buffer];
        assert(bv.byte_offset + bv.byte_length <= buffer.len());
        let window = slice_subrange(
            buffer.as_slice(),
            bv.byte_offset,
            bv.byte_offset + bv.byte_length,
        );
        out.push(slice_to_vec(window));
        k += 1;
    }
    out
}


/// The error of base64's decoder.
#[verifier::external_type_specification]
#[verifier::external_body]
pub struct ExDecodeError(base64::DecodeError);

/// What base64's `decode` makes of `text`: the bytes that it stands for, or
/// nothing where it is no base64 text of the standard alphabet.
pub uninterp spec fn base64_decoded(text: Seq<u8>) -> Option<Seq<u8>>;

/// Calls `decode` of base64, which decodes with the standard alphabet and
/// padding. The contract names what it returns: bytes where it succeeds, and
/// its error where it does not.
#[verifier::external_body]
fn decode(text: &[u8]) -> (r: Result<Vec<u8>, base64::DecodeError>)
    ensures
        r matches Ok(bytes) ==> base64_decoded(text@) == Some(bytes@),
        r is Err ==> base64_decoded(text@) is None,
{
    base64::decode(text)
}

/// One of the file's buffers: a data URI that carries the bytes as base64 text.
pub struct GLTFBuffer {
    pub byte_length: usize,
    pub uri: String,
}

impl GLTFBuffer {
    /// The URI as bytes.
    pub open spec fn text(self) -> Seq<u8> {
        encode_utf8(self.uri@)
    }
}

impl GLTFBuffer {
    /// Whether the URI has the comma that ends its header.
    pub fn has_payload(&self) -> (r: bool)
        ensures
            r == has_payload(self.text()),
    {
        let text = self.uri.as_str().as_bytes();
        let first = find_comma(text, 0);
        assert(text@.skip(0) =~= text@);
        first < text.len()
    }
}

/// The comma, which ends the header of a data URI.
pub const COMMA: u8 = 44;

/// The place of the first comma in `text`, or the length of `text` where it
/// has none.
pub open spec fn first_comma(text: Seq<u8>) -> int
    decreases text.len(),
{
    if text.len() == 0 {
        0
    } else if text[0] == COMMA {
        0
    } else {
        1 + first_comma(text.skip(1))
    }
}

/// The second of the pieces that the commas cut a data URI into: what stands
/// between the first comma and the next one, or the end.
pub open spec fn payload(uri: Seq<u8>) -> Seq<u8> {
    let rest = uri.skip(first_comma(uri) + 1);
    rest.take(first_comma(rest))
}

/// The bytes of those of `buffers` whose payload is base64 text, in their order.
pub open spec fn decoded_buffers(buffers: Seq<GLTFBuffer>) -> Seq<Seq<u8>>
    decreases buffers.len(),
{
    if buffers.len() == 0 {
        Seq::empty()
    } else {
        let before = decoded_buffers(buffers.drop_last());
        match base64_decoded(payload(buffers.last().text())) {
            Some(bytes) => before.push(bytes),
            None => before,
        }
    }
}

proof fn lemma_first_comma_bounds(text: Seq<u8>)
    ensures
        0 <= first_comma(text) <= text.len(),
        first_comma(text) < text.len() ==> text[first_comma(text)] == COMMA,
        forall|i: int| 0 <= i < first_comma(text) ==> text[i] != COMMA,
    decreases text.len(),
{
    if text.len() > 0 && text[0] != COMMA {
        lemma_first_comma_bounds(text.skip(1));
        assert forall|i: int| 0 <= i < first_comma(text) implies text[i] != COMMA by {
            if i > 0 {
                assert(text.skip(1)[i - 1] == text[i]);
            }
        }
    }
}

proof fn lemma_first_comma_is(text: Seq<u8>, at: int)
    requires
        0 <= at <= text.len(),
        at < text.len() ==> text[at] == COMMA,
        forall|i: int| 0 <= i < at ==> text[i] != COMMA,
    ensures
        first_comma(text) == at,
{
    lemma_first_comma_bounds(text);
}

/// The place of the first comma in `text` from `from` on, or the length of
/// `text` where none follows.
fn find_comma(text: &[u8], from: usize) -> (at: usize)
    requires
        from <= text.len(),
    ensures
        from <= at <= text.len(),
        at == from + first_comma(text@.skip(from as int)),
{
    let mut at = from;
    while at < text.len() && text[at] != COMMA
        invariant
            from <= at <= text.len(),
            forall|i: int| from <= i < at ==> text@[i] != COMMA,
        decreases text.len() - at,
    {
        at += 1;
    }
    proof {
        lemma_first_comma_is(text@.skip(from as int), at - from);
    }
    at
}

/// Whether a data URI has the comma that ends its header.
pub open spec fn has_payload(uri: Seq<u8>) -> bool {
    first_comma(uri) < uri.len()
}

/// Decodes the payload of each buffer. A buffer whose payload is no base64
/// text is left out.
pub fn gltf_buffers_to_bytes(buffers: &[GLTFBuffer]) -> (out: Vec<Vec<u8>>)
    requires
        forall|i: int| 0 <= i < buffers.len() ==> has_payload((#[trigger] buffers[i]).text()),
    ensures
        out@.map_values(|bytes: Vec<u8>| bytes@) == decoded_buffers(buffers@),
{
    let mut out: Vec<Vec<u8>> = Vec::new();
    let mut k: usize = 0;
    assert(buffers@.take(0) =~= Seq::<GLTFBuffer>::empty());
    assert(out@.map_values(|bytes: Vec<u8>| bytes@) =~= Seq::<Seq<u8>>::empty());
    while k < buffers.len()
        invariant
            k <= buffers.len(),
            forall|i: int|
                0 <= i < buffers.len() ==> has_payload((#[trigger] buffers[i]).text()),
            out@.map_values(|bytes: Vec<u8>| bytes@) == decoded_buffers(buffers@.take(k as int)),
        decreases buffers.len() - k,
    {
        let text = buffers[k].uri.as_str().as_bytes();
        assert(has_payload(buffers[k as int].text()));
        let first = find_comma(text, 0);
        assert(text@.skip(0) =~= text@);
        let second = find_comma(text, first + 1);
        let data = slice_subrange(text, first + 1, second);
        proof {
            let rest = text@.skip(first + 1);
            assert(data@ =~= rest.take(first_comma(rest)));
            assert(buffers@.take(k + 1).drop_last() =~= buffers@.take(k as int));
            assert(buffers@.take(k + 1).last() == buffers@[k as int]);
        }
        let ghost before = out@;
        match decode(data) {
            Ok(bytes) => {
                out.push(bytes);
                assert(out@.map_values(|bytes: Vec<u8>| bytes@) =~= before.map_values(
                    |bytes: Vec<u8>| bytes@,
                ).push(bytes@));
            },
            Err(_) => {},
        }
        k += 1;
    }
    assert(buffers@.take(k as int) =~= buffers@);
    out
}


/// How an accessor reads a view: as what, and how many.
pub struct GLTFAccessor {
    /// The place of the view in the file's list of views.
    pub buffer_view: usize,
    pub count: usize,
    pub type_: String,
}

/// What an accessor reads.
#[derive(Clone, Copy, Debug, PartialEq, Eq, Structural)]
pub enum AccessorKind {
    Vec3,
    Vec2,
    Scalar,
    Other,
}

/// One item read by an accessor. The components of a vector are the bit
/// patterns of single-precision numbers.
#[derive(Clone, Copy, Debug, PartialEq, Eq, Structural)]
pub enum DataType {
    Vec3(u32, u32, u32),
    Vec2(u32, u32),
    Scalar(u16),
}

/// The kind that a type name stands for: `VEC3`, `VEC2` or `SCALAR`, letter
/// for letter.
pub open spec fn spec_kind(name: Seq<u8>) -> AccessorKind {
    if name == seq![86u8, 69u8, 67u8, 51u8] {
        AccessorKind::Vec3
    } else if name == seq![86u8, 69u8, 67u8, 50u8] {
        AccessorKind::Vec2
    } else if name == seq![83u8, 67u8, 65u8, 76u8, 65u8, 82u8] {
        AccessorKind::Scalar
    } else {
        AccessorKind::Other
    }
}

/// The bytes that one item of this kind takes.
pub open spec fn item_size(kind: AccessorKind) -> int {
    match kind {
        AccessorKind::Vec3 => 12,
        AccessorKind::Vec2 => 8,
        AccessorKind::Scalar => 2,
        AccessorKind::Other => 0,
    }
}

/// The number that the four bytes of `view` from `at` on hold, the least byte first.
pub open spec fn word_at(view: Seq<u8>, at: int) -> u32 {
    spec_u32_from_le_bytes(view.subrange(at, at + 4))
}

/// The item of the given kind with the number `k` in `view`.
pub open spec fn item_at(kind: AccessorKind, view: Seq<u8>, k: int) -> DataType {
    match kind {
        AccessorKind::Vec3 => DataType::Vec3(
            word_at(view, 12 * k),
            word_at(view, 12 * k + 4),
            word_at(view, 12 * k + 8),
        ),
        AccessorKind::Vec2 => DataType::Vec2(word_at(view, 8 * k), word_at(view, 8 * k + 4)),
        _ => DataType::Scalar(spec_u16_from_le_bytes(view.subrange(2 * k, 2 * k + 2))),
    }
}

impl GLTFAccessor {
    /// The kind of items that the accessor reads.
    pub open spec fn kind(self) -> AccessorKind {
        spec_kind(encode_utf8(self.type_@))
    }

    /// The accessor names one of `views`, and that view holds as many items as
    /// the accessor reads.
    pub open spec fn fits(self, views: Seq<Vec<u8>>) -> bool {
        &&& self.buffer_view < views.len()
        &&& self.count * item_size(self.kind()) <= views[self.buffer_view as int]@.len()
    }

    /// What the accessor reads out of `views`: nothing where its kind is unknown.
    pub open spec fn data(self, views: Seq<Vec<u8>>) -> Seq<DataType> {
        if self.kind() == AccessorKind::Other {
            Seq::empty()
        } else {
            Seq::new(
                self.count as nat,
                |k: int| item_at(self.kind(), views[self.buffer_view as int]@, k),
            )
        }
    }
}

/// The bytes that one item of this kind takes.
pub fn size_of_item(kind: AccessorKind) -> (r: usize)
    ensures
        r == item_size(kind),
{
    match kind {
        AccessorKind::Vec3 => 12,
        AccessorKind::Vec2 => 8,
        AccessorKind::Scalar => 2,
        AccessorKind::Other => 0,
    }
}

/// Whether `text` is `word`, byte for byte.
fn same_bytes(text: &[u8], word: &[u8]) -> (r: bool)
    ensures
        r == (text@ == word@),
{
    if text.len() != word.len() {
        return false;
    }
    let mut i: usize = 0;
    while i < text.len()
        invariant
            i <= text.len(),
            text.len() == word.len(),
            forall|k: int| 0 <= k < i ==> text@[k] == word@[k],
        decreases text.len() - i,
    {
        if text[i] != word[i] {
            return false;
        }
        i += 1;
    }
    assert(text@ =~= word@);
    true
}

/// The kind that a type name stands for.
pub fn accessor_kind(name: &str) -> (r: AccessorKind)
    ensures
        r == spec_kind(encode_utf8(name@)),
{
    let text = name.as_bytes();
    let vec3: [u8; 4] = [86u8, 69u8, 67u8, 51u8];
    let vec2: [u8; 4] = [86u8, 69u8, 67u8, 50u8];
    let scalar: [u8; 6] = [83u8, 67u8, 65u8, 76u8, 65u8, 82u8];
    assert(vec3@ =~= seq![86u8, 69u8, 67u8, 51u8]);
    assert(vec2@ =~= seq![86u8, 69u8, 67u8, 50u8]);
    assert(scalar@ =~= seq![83u8, 67u8, 65u8, 76u8, 65u8, 82u8]);
    if same_bytes(text, vec3.as_slice()) {
        AccessorKind::Vec3
    } else if same_bytes(text, vec2.as_slice()) {
        AccessorKind::Vec2
    } else if same_bytes(text, scalar.as_slice()) {
        AccessorKind::Scalar
    } else {
        AccessorKind::Other
    }
}

impl GLTFAccessor {
    /// Whether the accessor names one of `views` that holds as many items as
    /// the accessor reads.
    pub fn fits_in(&self, views: &[Vec<u8>]) -> (r: bool)
        ensures
            r == self.fits(views@),
    {
        if self.buffer_view >= views.len() {
            return false;
        }
        let size = size_of_item(accessor_kind(self.type_.as_str()));
        let available = views[self.buffer_view].len();
        if size == 0 {
            assert(self.count * 0 == 0);
            return true;
        }
        let room = available / size;
        proof {
            let (count, size, available) = (self.count as int, size as int, available as int);
            assert(count <= available / size <==> count * size <= available) by (nonlinear_arith)
                requires
                    size > 0,
                    count >= 0,
                    available >= 0,
            ;
        }
        self.count <= room
    }
}

/// Reads the number that the four bytes of `view` from `at` on hold.
fn read_word(view: &[u8], at: usize) -> (r: u32)
    requires
        at + 4 <= view.len(),
    ensures
        r == word_at(view@, at as int),
{
    u32_from_le_bytes(slice_subrange(view, at, at + 4))
}

/// Reads out of the views what each accessor describes.
pub fn gltf_accessors_to_data(accessors: &[GLTFAccessor], buffer_views: &[Vec<u8>]) -> (out: Vec<
    Vec<DataType>,
>)
    requires
        forall|i: int| 0 <= i < accessors.len() ==> (#[trigger] accessors[i]).fits(buffer_views@),
    ensures
        out.len() == accessors.len(),
        forall|i: int|
            0 <= i < accessors.len() ==> (#[trigger] out[i])@ == accessors[i].data(buffer_views@),
{
    let mut out: Vec<Vec<DataType>> = Vec::new();
    let mut a: usize = 0;
    while a < accessors.len()
        invariant
            a <= accessors.len(),
            out.len() == a,
            forall|i: int|
                0 <= i < accessors.len() ==> (#[trigger] accessors[i]).fits(buffer_views@),
            forall|i: int| 0 <= i < a ==> (#[trigger] out[i])@ == accessors[i].data(buffer_views@),
        decreases accessors.len() - a,
    {
        let acc = &accessors[a];
        assert(acc.fits(buffer_views@));
        let bv = buffer_views[acc.buffer_view].as_slice();
        let kind = accessor_kind(acc.type_.as_str());
        let mut buf: Vec<DataType> = Vec::new();
        if kind != AccessorKind::Other {
            let ghost all = acc.data(buffer_views@);
            let ghost size = item_size(kind);
            let available = bv.len();
            assert(size * acc.count <= bv@.len()) by (nonlinear_arith)
                requires
                    acc.count * item_size(kind) <= bv@.len(),
                    size == item_size(kind),
            ;
            let mut i: usize = 0;
            while i < acc.count
                invariant
                    i <= acc.count,
                    kind == acc.kind(),
                    kind != AccessorKind::Other,
                    size == item_size(kind),
                    size * acc.count <= bv@.len() == available,
                    acc.buffer_view < buffer_views@.len(),
                    bv@ == buffer_views@[acc.buffer_view as int]@,
                    all == acc.data(buffer_views@),
                    buf@ == all.take(i as int),
                decreases acc.count - i,
            {
                assert(size * (i + 1) <= size * acc.count) by (nonlinear_arith)
                    requires
                        i < acc.count,
                        size >= 0,
                ;
                let item = match kind {
                    AccessorKind::Vec3 => DataType::Vec3(
                        read_word(bv, 12 * i),
                        read_word(bv, 12 * i + 4),
                        read_word(bv, 12 * i + 8),
                    ),
                    AccessorKind::Vec2 => DataType::Vec2(
                        read_word(bv, 8 * i),
                        read_word(bv, 8 * i + 4),
                    ),
                    _ => DataType::Scalar(u16_from_le_bytes(slice_subrange(bv, 2 * i, 2 * i + 2))),
                };
                buf.push(item);
                assert(all.take(i + 1) =~= all.take(i as int).push(all[i as int]));
                i += 1;
            }
            assert(all.take(i as int) =~= all);
        }
        out.push(buf);
        a += 1;
    }
    out
}

/// One group of triangles of a mesh: the accessors of its corner numbers and
/// of its corner positions, and its material.
#[derive(Clone, Copy, Debug, PartialEq, Eq, Structural)]
pub struct GLTFMeshPrimitive {
    /// The place, in the file's list of accessors, of the corner positions.
    pub position: usize,
    /// The place of the corner numbers.
    pub indices: usize,
    /// The place of the material in the file's list of materials.
    pub material: usize,
}

/// A mesh. Only its first group of triangles is read.
pub struct GLTFMesh {
    pub name: String,
    pub primitives: Vec<GLTFMeshPrimitive>,
}

/// A position: the bit patterns of its three coordinates.
#[derive(Clone, Copy, Debug, PartialEq, Eq, Structural)]
pub struct Corner {
    pub x: u32,
    pub y: u32,
    pub z: u32,
}

/// A triangle: its three corners, and its material.
#[derive(Clone, Copy, Debug, PartialEq, Eq, Structural)]
pub struct MeshTriangle {
    pub v0: Corner,
    pub v1: Corner,
    pub v2: Corner,
    pub material: usize,
}

/// The corner number that an item stands for: 0 for anything but a scalar.
pub open spec fn corner_number(item: DataType) -> usize {
    match item {
        DataType::Scalar(k) => k as usize,
        _ => 0,
    }
}

/// The position that an item stands for: the origin for anything but a
/// vector of three.
pub open spec fn corner_position(item: DataType) -> Corner {
    match item {
        DataType::Vec3(x, y, z) => Corner { x, y, z },
        _ => Corner { x: 0, y: 0, z: 0 },
    }
}

impl GLTFMesh {
    /// How many corner numbers of the first group stand in a triangle: the
    /// one or two after the last full three stand in none.
    pub open spec fn corners_read(self, accessors: Seq<Vec<DataType>>) -> int {
        3 * (accessors[self.primitives@[0].indices as int]@.len() as int / 3)
    }

    /// The mesh has a first group, whose accessors are among `accessors`. Where
    /// the group has a triangle, its material is one of `materials` materials,
    /// and every corner number that stands in a triangle names a position.
    pub open spec fn fits(self, accessors: Seq<Vec<DataType>>, materials: nat) -> bool {
        &&& self.primitives@.len() > 0
        &&& self.primitives@[0].indices < accessors.len()
        &&& self.primitives@[0].position < accessors.len()
        &&& self.corners_read(accessors) > 0 ==> self.primitives@[0].material < materials
        &&& forall|k: int|
            0 <= k < self.corners_read(accessors) ==> corner_number(
                #[trigger] accessors[self.primitives@[0].indices as int]@[k],
            ) < accessors[self.primitives@[0].position as int]@.len()
    }

    /// The corner with the number `k` of the first group.
    pub open spec fn corner(self, accessors: Seq<Vec<DataType>>, k: int) -> Corner {
        let numbers = accessors[self.primitives@[0].indices as int]@;
        let positions = accessors[self.primitives@[0].position as int]@;
        corner_position(positions[corner_number(numbers[k]) as int])
    }

    /// The triangles of the first group: each takes the next three corner numbers.
    pub open spec fn triangles(self, accessors: Seq<Vec<DataType>>) -> Seq<MeshTriangle> {
        Seq::new(
            (accessors[self.primitives@[0].indices as int]@.len() / 3) as nat,
            |i: int|
                MeshTriangle {
                    v0: self.corner(accessors, 3 * i),
                    v1: self.corner(accessors, 3 * i + 1),
                    v2: self.corner(accessors, 3 * i + 2),
                    material: self.primitives@[0].material,
                },
        )
    }
}

impl GLTFMesh {
    /// Whether the first group of the mesh, as far as it is read, names only
    /// what `accessors` and a table of `materials` materials hold.
    pub fn fits_in(&self, accessors: &[Vec<DataType>], materials: usize) -> (r: bool)
        ensures
            r == self.fits(accessors@, materials as nat),
    {
        if self.primitives.len() == 0 {
            return false;
        }
        let group = self.primitives[0];
        if group.indices >= accessors.len() || group.position >= accessors.len() {
            return false;
        }
        let numbers = &accessors[group.indices];
        let positions = accessors[group.position].len();
        let read = 3 * (numbers.len() / 3);
        if read > 0 && group.material >= materials {
            return false;
        }
        let mut k: usize = 0;
        while k < read
            invariant
                k <= read <= numbers.len(),
                read == self.corners_read(accessors@),
                numbers@ == accessors@[group.indices as int]@,
                positions == accessors@[group.position as int]@.len(),
                group == self.primitives@[0],
                forall|i: int| 0 <= i < k ==> corner_number(#[trigger] numbers@[i]) < positions,
            decreases read - k,
        {
            if number_of(&numbers[k]) >= positions {
                return false;
            }
            k += 1;
        }
        true
    }
}

/// The triangles of all of `meshes`, mesh after mesh.
pub open spec fn all_triangles(meshes: Seq<GLTFMesh>, accessors: Seq<Vec<DataType>>) -> Seq<
    MeshTriangle,
>
    decreases meshes.len(),
{
    if meshes.len() == 0 {
        Seq::empty()
    } else {
        all_triangles(meshes.drop_last(), accessors) + meshes.last().triangles(accessors)
    }
}

fn number_of(item: &DataType) -> (r: usize)
    ensures
        r == corner_number(*item),
{
    match item {
        DataType::Scalar(k) => *k as usize,
        _ => 0,
    }
}

fn position_of(item: &DataType) -> (r: Corner)
    ensures
        r == corner_position(*item),
{
    match item {
        DataType::Vec3(x, y, z) => Corner { x: *x, y: *y, z: *z },
        _ => Corner { x: 0, y: 0, z: 0 },
    }
}

/// Reads the triangles of the meshes out of what the accessors gave.
/// `materials` is the number of materials in the file.
pub fn gltf_meshes_to_hittables(
    meshes: &[GLTFMesh],
    accessors: &[Vec<DataType>],
    materials: usize,
) -> (objects: Vec<MeshTriangle>)
    requires
        forall|m: int|
            0 <= m < meshes.len() ==> (#[trigger] meshes[m]).fits(accessors@, materials as nat),
    ensures
        objects@ == all_triangles(meshes@, accessors@),
{
    let mut objects: Vec<MeshTriangle> = Vec::new();
    let mut m: usize = 0;
    assert(meshes@.take(0) =~= Seq::<GLTFMesh>::empty());
    while m < meshes.len()
        invariant
            m <= meshes.len(),
            forall|m: int|
                0 <= m < meshes.len() ==> (#[trigger] meshes[m]).fits(accessors@, materials as nat),
            objects@ == all_triangles(meshes@.take(m as int), accessors@),
        decreases meshes.len() - m,
    {
        let mesh = &meshes[m];
        assert(mesh.fits(accessors@, materials as nat));
        let group = mesh.primitives[0];
        let numbers = &accessors[group.indices];
        let positions = &accessors[group.position];
        let ghost before = objects@;
        let ghost found = mesh.triangles(accessors@);
        let count = numbers.len() / 3;
        let mut i: usize = 0;
        while i < count
            invariant
                i <= count,
                count == numbers@.len() / 3,
                numbers@.len() <= usize::MAX,
                mesh.fits(accessors@, materials as nat),
                group == mesh.primitives@[0],
                numbers@ == accessors@[group.indices as int]@,
                positions@ == accessors@[group.position as int]@,
                found == mesh.triangles(accessors@),
                objects@ == before + found.take(i as int),
            decreases count - i,
        {
            let v0 = position_of(&positions[number_of(&numbers[3 * i])]);
            let v1 = position_of(&positions[number_of(&numbers[3 * i + 1])]);
            let v2 = position_of(&positions[number_of(&numbers[3 * i + 2])]);
            objects.push(MeshTriangle { v0, v1, v2, material: group.material });
            assert(found.take(i + 1) =~= found.take(i as int).push(found[i as int]));
            assert(objects@ =~= before + found.take(i + 1));
            i += 1;
        }
        proof {
            assert(found.take(i as int) =~= found);
            assert(meshes@.take(m + 1).drop_last() =~= meshes@.take(m as int));
            assert(meshes@.take(m + 1).last() == meshes@[m as int]);
        }
        m += 1;
    }
    assert(meshes@.take(m as int) =~= meshes@);
    objects
}

/// The key below which, in magnitude, a surface counts as not metallic: a
/// hundred-thousandth.
pub const METALLIC_THRESHOLD: i32 = 0x3727_c5ac;

/// The metallic-roughness description of a material, its numbers as keys.
pub struct PBRMetallicRoughness {
    pub base_color_factor: Vec<i32>,
    pub metallic_factor: i32,
    pub roughness_factor: i32,
}

/// A material of the file.
pub struct GLTFMaterial {
    pub double_sided: bool,
    pub name: String,
    pub pbr_metallic_roughness: PBRMetallicRoughness,
}

/// The material that the renderer makes of a material of the file.
#[derive(Clone, Copy, Debug, PartialEq, Eq, Structural)]
pub enum SurfaceKind {
    /// A diffuse surface of one colour.
    Lambertian { color: Color },
    /// A mirror-like surface.
    Metal { albedo: Color, fuzziness: i32 },
}

impl GLTFMaterial {
    /// The first three numbers of the base colour.
    pub open spec fn color(self) -> Color {
        Vec3 {
            x: self.pbr_metallic_roughness.base_color_factor@[0],
            y: self.pbr_metallic_roughness.base_color_factor@[1],
            z: self.pbr_metallic_roughness.base_color_factor@[2],
        }
    }

    /// A material is diffuse where its metallic factor is, in magnitude, below
    /// the threshold; else it is a metal whose fuzziness is its roughness.
    pub open spec fn surface(self) -> SurfaceKind {
        let metallic = self.pbr_metallic_roughness.metallic_factor;
        if -METALLIC_THRESHOLD < metallic < METALLIC_THRESHOLD {
            SurfaceKind::Lambertian { color: self.color() }
        } else {
            SurfaceKind::Metal {
                albedo: self.color(),
                fuzziness: self.pbr_metallic_roughness.roughness_factor,
            }
        }
    }
}

impl GLTFMaterial {
    /// The base colour has its three components.
    pub open spec fn has_color(self) -> bool {
        self.pbr_metallic_roughness.base_color_factor@.len() >= 3
    }

    /// Whether the base colour has its three components.
    pub fn is_colored(&self) -> (r: bool)
        ensures
            r == self.has_color(),
    {
        self.pbr_metallic_roughness.base_color_factor.len() >= 3
    }
}

/// The renderer's material for each material of the file.
pub fn gltf_materials_to_materials(materials: &[GLTFMaterial]) -> (out: Vec<SurfaceKind>)
    requires
        forall|i: int|
            0 <= i < materials.len() ==> (
            #[trigger] materials[i]).pbr_metallic_roughness.base_color_factor@.len() >= 3,
    ensures
        out.len() == materials.len(),
        forall|i: int| 0 <= i < materials.len() ==> #[trigger] out[i] == materials[i].surface(),
{
    let mut out: Vec<SurfaceKind> = Vec::new();
    let mut k: usize = 0;
    while k < materials.len()
        invariant
            k <= materials.len(),
            out.len() == k,
            forall|i: int|
                0 <= i < materials.len() ==> (
                #[trigger] materials[i]).pbr_metallic_roughness.base_color_factor@.len() >= 3,
            forall|i: int| 0 <= i < k ==> #[trigger] out[i] == materials[i].surface(),
        decreases materials.len() - k,
    {
        let mat = &materials[k];
        assert(mat.pbr_metallic_roughness.base_color_factor@.len() >= 3);
        let color = Vec3 {
            x: mat.pbr_metallic_roughness.base_color_factor[0],
            y: mat.pbr_metallic_roughness.base_color_factor[1],
            z: mat.pbr_metallic_roughness.base_color_factor[2],
        };
        let metallic = mat.pbr_metallic_roughness.metallic_factor;
        if -METALLIC_THRESHOLD < metallic && metallic < METALLIC_THRESHOLD {
            out.push(SurfaceKind::Lambertian { color });
        } else {
            out.push(
                SurfaceKind::Metal {
                    albedo: color,
                    fuzziness: mat.pbr_metallic_roughness.roughness_factor,
                },
            );
        }
        k += 1;
    }
    out
}

} // verus!
