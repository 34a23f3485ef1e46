use vstd::prelude::*;

verus! {

/// Maximum number of attributes in a vertex layout.
pub const MAX_VERTEX_ATTRIBUTES: usize = 12;

/// Hint about the intended update strategy of the data.
#[derive(Debug, PartialEq, Eq, Clone, Copy, Structural)]
pub enum BufferHint {
    /// Initialized with data that never changes: the most common and most
    /// efficient usage.
    Immutable,
    /// Initialized without data and updated by the CPU in each frame.
    Stream,
    /// Initialized without data and written by the CPU before use, with
    /// infrequent updates.
    Dynamic,
}

/// How the input vertex data is assembled into primitives.
#[derive(Debug, PartialEq, Eq, Clone, Copy, Structural)]
pub enum Primitive {
    Points,
    Lines,
    LineStrip,
    Triangles,
    TriangleStrip,
}

impl Primitive {
    /// The number of primitives that `indices` indices assemble into.
    pub open spec fn spec_assemble(self, indices: u32) -> int {
        match self {
            Primitive::Points => indices as int,
            Primitive::Lines => indices as int / 2,
            Primitive::LineStrip => indices as int - 1,
            Primitive::Triangles => indices as int / 3,
            Primitive::TriangleStrip => indices as int - 2,
        }
    }

    /// The least number of indices a strip needs.
    pub open spec fn min_indices(self) -> u32 {
        match self {
            Primitive::LineStrip => 1,
            Primitive::TriangleStrip => 2,
            _ => 0,
        }
    }

    /// Returns the number of primitives that `indices` indices assemble into.
    pub fn assemble(&self, indices: u32) -> (r: u32)
        requires
            indices >= self.min_indices(),
        ensures
            r == self.spec_assemble(indices),
    {
        match *self {
            Primitive::Points => indices,
            Primitive::Lines => indices / 2,
            Primitive::LineStrip => indices - 1,
            Primitive::Triangles => indices / 3,
            Primitive::TriangleStrip => indices - 2,
        }
    }

    /// Returns the number of triangles that `indices` indices assemble into;
    /// points and lines make none.
    pub fn assemble_triangles(&self, indices: u32) -> (r: u32)
        requires
            *self == Primitive::TriangleStrip ==> indices >= 2,
        ensures
            r == (match *self {
                Primitive::Triangles | Primitive::TriangleStrip => self.spec_assemble(indices),
                _ => 0,
            }),
    {
        match *self {
            Primitive::Points => 0,
            Primitive::Lines => 0,
            Primitive::LineStrip => 0,
            Primitive::Triangles => indices / 3,
            Primitive::TriangleStrip => indices - 2,
        }
    }
}

/// Vertex indices are either 16 or 32 bits wide.
#[derive(Debug, PartialEq, Eq, Clone, Copy, Structural)]
pub enum IndexFormat {
    U16,
    U32,
}

impl IndexFormat {
    /// The width of one index in bytes.
    pub open spec fn spec_len(self) -> nat {
        match self {
            IndexFormat::U16 => 2,
            IndexFormat::U32 => 4,
        }
    }

    /// Returns the width of one index in bytes.
    pub fn len(&self) -> (r: usize)
        ensures
            r == self.spec_len(),
    {
        match self {
            IndexFormat::U16 => 2,
            IndexFormat::U32 => 4,
        }
    }
}

/// The description of an index buffer.
#[derive(Debug, Clone, Copy)]
pub struct IndexBufferSetup {
    /// Usage hint.
    pub hint: BufferHint,
    /// The number of indices in the buffer.
    pub num: u32,
    /// The format of each index.
    pub format: IndexFormat,
}

impl Default for IndexBufferSetup {
    fn default() -> (r: Self)
        ensures
            r.hint == BufferHint::Immutable,
            r.num == 0,
            r.format == IndexFormat::U16,
    {
        IndexBufferSetup { hint: BufferHint::Immutable, num: 0, format: IndexFormat::U16 }
    }
}

impl IndexBufferSetup {
    /// Returns the size of the buffer in bytes.
    pub fn len(&self) -> (r: usize)
        requires
            self.num * self.format.spec_len() <= usize::MAX,
        ensures
            r == self.num * self.format.spec_len(),
    {
        self.num as usize * self.format.len()
    }
}

/// The data type of the components of a vertex attribute.
#[derive(Debug, PartialEq, Eq, Clone, Copy, Structural)]
pub enum VertexFormat {
    Byte,
    UByte,
    Short,
    UShort,
    Float,
}

/// The size in bytes of one component of the given format.
pub open spec fn format_bytes(format: VertexFormat) -> u8 {
    match format {
        VertexFormat::Byte | VertexFormat::UByte => 1,
        VertexFormat::Short | VertexFormat::UShort => 2,
        VertexFormat::Float => 4,
    }
}

/// Returns the size in bytes of one component of the given format.
pub fn size_of_vertex(format: VertexFormat) -> (r: u8)
    ensures
        r == format_bytes(format),
{
    match format {
        VertexFormat::Byte | VertexFormat::UByte => 1,
        VertexFormat::Short | VertexFormat::UShort => 2,
        VertexFormat::Float => 4,
    }
}

/// The pre-defined, named attributes of a vertex.
#[derive(Debug, PartialEq, Eq, Clone, Copy, Structural)]
pub enum VertexAttribute {
    Position,
    Normal,
    Tangent,
    Bitangent,
    Color0,
    Color1,
    Indices,
    Weight,
    Texcoord0,
    Texcoord1,
    Texcoord2,
    Texcoord3,
}

/// Every vertex attribute, in declaration order.
pub open spec fn all_attributes() -> Seq<VertexAttribute> {
    seq![
        VertexAttribute::Position,
        VertexAttribute::Normal,
        VertexAttribute::Tangent,
        VertexAttribute::Bitangent,
        VertexAttribute::Color0,
        VertexAttribute::Color1,
        VertexAttribute::Indices,
        VertexAttribute::Weight,
        VertexAttribute::Texcoord0,
        VertexAttribute::Texcoord1,
        VertexAttribute::Texcoord2,
        VertexAttribute::Texcoord3,
    ]
}

impl VertexAttribute {
    /// The attribute's name.
    pub open spec fn spec_name(self) -> Seq<char> {
        match self {
            VertexAttribute::Position => "Position"@,
            VertexAttribute::Normal => "Normal"@,
            VertexAttribute::Tangent => "Tangent"@,
            VertexAttribute::Bitangent => "Bitangent"@,
            VertexAttribute::Color0 => "Color0"@,
            VertexAttribute::Color1 => "Color1"@,
            VertexAttribute::Indices => "Indices"@,
            VertexAttribute::Weight => "Weight"@,
            VertexAttribute::Texcoord0 => "Texcoord0"@,
            VertexAttribute::Texcoord1 => "Texcoord1"@,
            VertexAttribute::Texcoord2 => "Texcoord2"@,
            VertexAttribute::Texcoord3 => "Texcoord3"@,
        }
    }

    /// Returns the attribute's name.
    pub fn name(&self) -> (r: &'static str)
        ensures
            r@ == self.spec_name(),
    {
        match self {
            VertexAttribute::Position => "Position",
            VertexAttribute::Normal => "Normal",
            VertexAttribute::Tangent => "Tangent",
            VertexAttribute::Bitangent => "Bitangent",
            VertexAttribute::Color0 => "Color0",
            VertexAttribute::Color1 => "Color1",
            VertexAttribute::Indices => "Indices",
            VertexAttribute::Weight => "Weight",
            VertexAttribute::Texcoord0 => "Texcoord0",
            VertexAttribute::Texcoord1 => "Texcoord1",
            VertexAttribute::Texcoord2 => "Texcoord2",
            VertexAttribute::Texcoord3 => "Texcoord3",
        }
    }

    /// Returns the attribute named `v`, if there is one.
    pub fn from_str(v: &str) -> (r: Option<VertexAttribute>)
        ensures
            r.is_some() ==> v@ == r.unwrap().spec_name(),
            r.is_none() ==> forall|a: VertexAttribute| v@ != a.spec_name(),
    {
        let attributes = [
            VertexAttribute::Position,
            VertexAttribute::Normal,
            VertexAttribute::Tangent,
            VertexAttribute::Bitangent,
            VertexAttribute::Color0,
            VertexAttribute::Color1,
            VertexAttribute::Indices,
            VertexAttribute::Weight,
            VertexAttribute::Texcoord0,
            VertexAttribute::Texcoord1,
            VertexAttribute::Texcoord2,
            VertexAttribute::Texcoord3,
        ];
        assert(attributes@ == all_attributes());
        let wanted = v.to_owned();
        let mut k: usize = 0;
        while k < attributes.len()
            invariant
                0 <= k <= attributes@.len(),
                attributes@ == all_attributes(),
                wanted@ == v@,
                forall|j: int| 0 <= j < k ==> v@ != (#[trigger] attributes@[j]).spec_name(),
            decreases attributes@.len() - k,
        {
            let name = attributes[k].name().to_owned();
            if wanted == name {
                return Some(attributes[k]);
            }
            k = k + 1;
        }
        assert forall|a: VertexAttribute| v@ != a.spec_name() by {
            match a {
                VertexAttribute::Position => assert(attributes@[0] == a),
                VertexAttribute::Normal => assert(attributes@[1] == a),
                VertexAttribute::Tangent => assert(attributes@[2] == a),
                VertexAttribute::Bitangent => assert(attributes@[3] == a),
                VertexAttribute::Color0 => assert(attributes@[4] == a),
                VertexAttribute::Color1 => assert(attributes@[5] == a),
                VertexAttribute::Indices => assert(attributes@[6] == a),
                VertexAttribute::Weight => assert(attributes@[7] == a),
                VertexAttribute::Texcoord0 => assert(attributes@[8] == a),
                VertexAttribute::Texcoord1 => assert(attributes@[9] == a),
                VertexAttribute::Texcoord2 => assert(attributes@[10] == a),
                VertexAttribute::Texcoord3 => assert(attributes@[11] == a),
            }
        }
        None
    }
}

/// The description of one attribute of a vertex.
#[derive(Debug, PartialEq, Eq, Clone, Copy, Structural)]
pub struct VertexAttributeDesc {
    /// The attribute described.
    pub name: VertexAttribute,
    /// The data type of each component.
    pub format: VertexFormat,
    /// The number of components.
    pub size: u8,
    /// Whether fixed-point values are normalized.
    pub normalized: bool,
}

impl VertexAttributeDesc {
    /// The placeholder description that fills unused layout entries.
    pub open spec fn spec_default() -> VertexAttributeDesc {
        VertexAttributeDesc {
            name: VertexAttribute::Position,
            format: VertexFormat::Byte,
            size: 0,
            normalized: false,
        }
    }

    /// The number of bytes the attribute takes in a vertex.
    pub open spec fn spec_bytes(self) -> int {
        self.size * format_bytes(self.format)
    }
}

impl Default for VertexAttributeDesc {
    fn default() -> (r: Self)
        ensures
            r == VertexAttributeDesc::spec_default(),
    {
        VertexAttributeDesc {
            name: VertexAttribute::Position,
            format: VertexFormat::Byte,
            size: 0,
            normalized: false,
        }
    }
}

/// The total size in bytes of the first `n` attributes of `elements`.
pub open spec fn prefix_bytes(elements: Seq<VertexAttributeDesc>, n: int) -> int
    decreases n,
{
    if n <= 0 {
        0
    } else {
        prefix_bytes(elements, n - 1) + elements[n - 1].spec_bytes()
    }
}

proof fn lemma_prefix_bytes_bound(elements: Seq<VertexAttributeDesc>, n: int)
    requires
        0 <= n <= elements.len(),
        forall|k: int| 0 <= k < n ==> (#[trigger] elements[k]).size <= 4,
    ensures
        0 <= prefix_bytes(elements, n) <= 16 * n,
    decreases n,
{
    if n > 0 {
        lemma_prefix_bytes_bound(elements, n - 1);
        assert(elements[n - 1].spec_bytes() <= 16) by (nonlinear_arith)
            requires
                elements[n - 1].size <= 4,
                format_bytes(elements[n - 1].format) <= 4,
                elements[n - 1].spec_bytes() == elements[n - 1].size * format_bytes(
                    elements[n - 1].format,
                ),
        ;
    }
}

/// The position of the first of the first `len` entries of `elements` that
/// describes `name`.
pub open spec fn first_named(elements: Seq<VertexAttributeDesc>, len: int, name: VertexAttribute) -> Option<int>
    decreases len,
{
    if len <= 0 {
        None
    } else {
        match first_named(elements, len - 1, name) {
            Some(k) => Some(k),
            None => if elements[len - 1].name == name {
                Some(len - 1)
            } else {
                None
            },
        }
    }
}

proof fn lemma_first_named(elements: Seq<VertexAttributeDesc>, len: int, name: VertexAttribute)
    requires
        0 <= len,
    ensures
        first_named(elements, len, name) matches Some(k) ==> 0 <= k < len && elements[k].name
            == name && forall|j: int| 0 <= j < k ==> elements[j].name != name,
        first_named(elements, len, name) is None ==> forall|j: int|
            0 <= j < len ==> elements[j].name != name,
    decreases len,
{
    if len > 0 {
        lemma_first_named(elements, len - 1, name);
    }
}

/// How a single vertex is laid out: a list of attributes, each with the
/// offset at which it starts, and the stride from one vertex to the next.
#[derive(Debug, PartialEq, Eq, Clone, Copy)]
pub struct VertexLayout {
    stride: u8,
    len: u8,
    offset: [u8; MAX_VERTEX_ATTRIBUTES],
    elements: [VertexAttributeDesc; MAX_VERTEX_ATTRIBUTES],
}

impl VertexLayout {
    pub closed spec fn spec_stride(&self) -> u8 {
        self.stride
    }

    pub closed spec fn spec_len(&self) -> nat {
        self.len as nat
    }

    /// The offset of each entry.
    pub closed spec fn spec_offsets(&self) -> Seq<u8> {
        self.offset@
    }

    /// The entries; only the first `spec_len()` are in use.
    pub closed spec fn spec_elements(&self) -> Seq<VertexAttributeDesc> {
        self.elements@
    }

    /// The layout with no attributes.
    pub open spec fn is_empty_layout(&self) -> bool {
        &&& self.spec_stride() == 0
        &&& self.spec_len() == 0
        &&& self.spec_offsets().len() == MAX_VERTEX_ATTRIBUTES
        &&& self.spec_elements().len() == MAX_VERTEX_ATTRIBUTES
        &&& forall|k: int| 0 <= k < MAX_VERTEX_ATTRIBUTES ==> self.spec_offsets()[k] == 0
        &&& forall|k: int|
            0 <= k < MAX_VERTEX_ATTRIBUTES ==> self.spec_elements()[k]
                == VertexAttributeDesc::spec_default()
    }

    /// The entries in use describe distinct attributes of one to four
    /// components each.
    pub open spec fn wf(&self) -> bool {
        &&& self.spec_len() <= MAX_VERTEX_ATTRIBUTES
        &&& self.spec_elements().len() == MAX_VERTEX_ATTRIBUTES
        &&& self.spec_offsets().len() == MAX_VERTEX_ATTRIBUTES
        &&& forall|k: int|
            0 <= k < self.spec_len() ==> 1 <= (#[trigger] self.spec_elements()[k]).size <= 4
        &&& forall|j: int, k: int|
            0 <= j < k < self.spec_len() ==> (#[trigger] self.spec_elements()[j]).name
                != (#[trigger] self.spec_elements()[k]).name
    }

    /// Returns the layout with no attributes.
    pub fn empty() -> (r: Self)
        ensures
            r.is_empty_layout(),
            r.wf(),
    {
        let d = VertexAttributeDesc {
            name: VertexAttribute::Position,
            format: VertexFormat::Byte,
            size: 0,
            normalized: false,
        };
        VertexLayout { stride: 0, len: 0, offset: [0u8; MAX_VERTEX_ATTRIBUTES], elements: [d; MAX_VERTEX_ATTRIBUTES] }
    }

    /// Creates a new, empty `VertexLayoutBuilder`.
    pub fn build() -> (r: VertexLayoutBuilder)
        ensures
            r.spec_layout().is_empty_layout(),
            r.spec_layout().wf(),
    {
        VertexLayoutBuilder::new()
    }

    /// The stride of a single vertex, in bytes.
    pub fn stride(&self) -> (r: u8)
        ensures
            r == self.spec_stride(),
    {
        self.stride
    }

    /// Returns the number of attributes in the layout.
    pub fn len(&self) -> (r: u8)
        ensures
            r == self.spec_len(),
    {
        self.len
    }

    /// Returns the offset of the attribute `name`, if the layout has it.
    pub fn offset(&self, name: VertexAttribute) -> (r: Option<u8>)
        requires
            self.wf(),
        ensures
            r == (match first_named(self.spec_elements(), self.spec_len() as int, name) {
                Some(k) => Some(self.spec_offsets()[k]),
                None => None::<u8>,
            }),
    {
        proof {
            lemma_first_named(self.spec_elements(), self.spec_len() as int, name);
        }
        match self.position(name) {
            Some(i) => Some(self.offset[i]),
            None => None,
        }
    }

    /// Returns the description of the attribute `name`, if the layout has it.
    pub fn element(&self, name: VertexAttribute) -> (r: Option<VertexAttributeDesc>)
        requires
            self.wf(),
        ensures
            r == (match first_named(self.spec_elements(), self.spec_len() as int, name) {
                Some(k) => Some(self.spec_elements()[k]),
                None => None::<VertexAttributeDesc>,
            }),
    {
        proof {
            lemma_first_named(self.spec_elements(), self.spec_len() as int, name);
        }
        match self.position(name) {
            Some(i) => Some(self.elements[i]),
            None => None,
        }
    }

    /// Returns the position of the entry in use that describes `name`.
    fn position(&self, name: VertexAttribute) -> (r: Option<usize>)
        requires
            self.wf(),
        ensures
            r == (match first_named(self.spec_elements(), self.spec_len() as int, name) {
                Some(k) => Some(k as usize),
                None => None::<usize>,
            }),
            r matches Some(i) ==> i < self.spec_len(),
    {
        let len = self.len as usize;
        let mut i: usize = 0;
        while i < len
            invariant
                0 <= i <= len,
                len == self.spec_len(),
                self.wf(),
                first_named(self.spec_elements(), i as int, name) is None,
            decreases len - i,
        {
            if self.elements[i].name == name {
                proof {
                    lemma_first_named_extend(self.spec_elements(), i as int, len as int, name);
                }
                return Some(i);
            }
            i = i + 1;
        }
        None
    }
}

/// Once the first `i` entries miss `name` and entry `i` has it, the search
/// over any longer prefix stops at `i`.
proof fn lemma_first_named_extend(
    elements: Seq<VertexAttributeDesc>,
    i: int,
    len: int,
    name: VertexAttribute,
)
    requires
        0 <= i < len,
        first_named(elements, i, name) is None,
        elements[i].name == name,
    ensures
        first_named(elements, len, name) == Some(i),
    decreases len - i,
{
    if len > i + 1 {
        lemma_first_named_extend(elements, i, len - 1, name);
    }
}

impl Default for VertexLayout {
    fn default() -> (r: Self)
        ensures
            r.is_empty_layout(),
    {
        VertexLayout::empty()
    }
}

/// The description of a vertex buffer.
#[derive(Debug, Clone, Copy)]
pub struct VertexBufferSetup {
    /// Usage hint.
    pub hint: BufferHint,
    /// The layout of each vertex.
    pub layout: VertexLayout,
    /// The number of vertices.
    pub num: u32,
}

impl VertexBufferSetup {
    /// Returns the size of the buffer in bytes.
    pub fn len(&self) -> (r: usize)
        requires
            self.num * self.layout.spec_stride() <= usize::MAX,
        ensures
            r == self.num * self.layout.spec_stride(),
    {
        self.num as usize * self.layout.stride() as usize
    }
}

impl Default for VertexBufferSetup {
    fn default() -> (r: Self)
        ensures
            r.hint == BufferHint::Immutable,
            r.layout.is_empty_layout(),
            r.num == 0,
    {
        VertexBufferSetup { hint: BufferHint::Immutable, layout: VertexLayout::empty(), num: 0 }
    }
}

/// Builds a vertex layout whose offsets follow from the attribute sizes.
pub struct VertexLayoutBuilder(VertexLayout);

impl VertexLayoutBuilder {
    /// The layout built so far.
    pub closed spec fn spec_layout(&self) -> VertexLayout {
        self.0
    }

    /// Creates a builder with no attributes.
    pub fn new() -> (r: Self)
        ensures
            r.spec_layout().is_empty_layout(),
            r.spec_layout().wf(),
    {
        VertexLayoutBuilder(VertexLayout::empty())
    }
}

impl VertexLayout {
    /// Records `desc` in place of the entry in use that describes the same
    /// attribute, or appends it after the entries in use; hands back where it
    /// went.
    fn put(&mut self, desc: VertexAttributeDesc) -> (r: usize)
        requires
            old(self).wf(),
            1 <= desc.size <= 4,
            first_named(old(self).spec_elements(), old(self).spec_len() as int, desc.name) is Some
                || old(self).spec_len() < MAX_VERTEX_ATTRIBUTES,
        ensures
            final(self).wf(),
            final(self).spec_stride() == old(self).spec_stride(),
            final(self).spec_offsets() == old(self).spec_offsets(),
            final(self).spec_elements() == old(self).spec_elements().update(r as int, desc),
            r < final(self).spec_len(),
            match first_named(old(self).spec_elements(), old(self).spec_len() as int, desc.name) {
                Some(k) => r == k && final(self).spec_len() == old(self).spec_len(),
                None => r == old(self).spec_len() && final(self).spec_len() == old(self).spec_len()
                    + 1,
            },
    {
        proof {
            lemma_first_named(self.elements@, self.len as int, desc.name);
        }
        match self.position(desc.name) {
            Some(i) => {
                self.elements[i] = desc;
                i
            },
            None => {
                let n = self.len as usize;
                self.elements[n] = desc;
                self.len = self.len + 1;
                n
            },
        }
    }
}

impl VertexLayoutBuilder {
    /// Adds the attribute `attribute`, or redefines it if the layout already
    /// has it.
    pub fn with(
        &mut self,
        attribute: VertexAttribute,
        format: VertexFormat,
        size: u8,
        normalized: bool,
    ) -> (r: &mut Self)
        requires
            old(self).spec_layout().wf(),
            1 <= size <= 4,
            first_named(
                old(self).spec_layout().spec_elements(),
                old(self).spec_layout().spec_len() as int,
                attribute,
            ) is Some || old(self).spec_layout().spec_len() < MAX_VERTEX_ATTRIBUTES,
        ensures
            *final(self) == *final(r),
            r.spec_layout().wf(),
            r.spec_layout().spec_stride() == old(self).spec_layout().spec_stride(),
            r.spec_layout().spec_offsets() == old(self).spec_layout().spec_offsets(),
            ({
                let old_layout = old(self).spec_layout();
                let desc = VertexAttributeDesc { name: attribute, format, size, normalized };
                match first_named(old_layout.spec_elements(), old_layout.spec_len() as int, attribute) {
                    Some(k) => r.spec_layout().spec_len() == old_layout.spec_len()
                        && r.spec_layout().spec_elements() == old_layout.spec_elements().update(k, desc),
                    None => r.spec_layout().spec_len() == old_layout.spec_len() + 1
                        && r.spec_layout().spec_elements() == old_layout.spec_elements().update(
                        old_layout.spec_len() as int,
                        desc,
                    ),
                }
            }),
    {
        let desc = VertexAttributeDesc { name: attribute, format, size, normalized };
        self.0.put(desc);
        self
    }

    /// Computes each attribute's offset from the sizes of the attributes
    /// before it, and the stride from the sizes of all of them.
    pub fn finish(&mut self) -> (r: VertexLayout)
        requires
            old(self).spec_layout().wf(),
        ensures
            r == final(self).spec_layout(),
            r.wf(),
            r.spec_len() == old(self).spec_layout().spec_len(),
            r.spec_elements() == old(self).spec_layout().spec_elements(),
            r.spec_stride() == prefix_bytes(r.spec_elements(), r.spec_len() as int),
            forall|k: int|
                0 <= k < r.spec_len() ==> #[trigger] r.spec_offsets()[k] == prefix_bytes(
                    r.spec_elements(),
                    k,
                ),
    {
        self.0.stride = 0;
        let len = self.0.len as usize;
        let mut i: usize = 0;
        while i < len
            invariant
                0 <= i <= len,
                len == self.0.spec_len(),
                self.0.wf(),
                self.0.spec_elements() == old(self).0.spec_elements(),
                self.0.spec_len() == old(self).0.spec_len(),
                self.0.spec_stride() == prefix_bytes(self.0.spec_elements(), i as int),
                forall|k: int|
                    0 <= k < i ==> #[trigger] self.0.spec_offsets()[k] == prefix_bytes(
                        self.0.spec_elements(),
                        k,
                    ),
            decreases len - i,
        {
            proof {
                lemma_prefix_bytes_bound(self.0.spec_elements(), i as int + 1);
            }
            let desc = self.0.elements[i];
            let bytes = desc.size * size_of_vertex(desc.format);
            let stride = self.0.stride;
            self.0.offset[i] = stride;
            self.0.stride = stride + bytes;
            i = i + 1;
        }
        self.0
    }
}

/// Builds a vertex layout whose offsets and stride are given by the caller,
/// for a vertex type whose field positions are known.
pub struct CustomVertexLayoutBuilder(VertexLayout);

impl CustomVertexLayoutBuilder {
    /// The layout built so far.
    pub closed spec fn spec_layout(&self) -> VertexLayout {
        self.0
    }

    /// Creates a builder with no attributes.
    pub fn new() -> (r: Self)
        ensures
            r.spec_layout().is_empty_layout(),
            r.spec_layout().wf(),
    {
        CustomVertexLayoutBuilder(VertexLayout::empty())
    }

    /// Adds the attribute `attribute`, found `offset_of_field` bytes into a
    /// vertex, or redefines it, keeping its offset, if the layout already has
    /// it.
    pub fn with(
        &mut self,
        attribute: VertexAttribute,
        format: VertexFormat,
        size: u8,
        normalized: bool,
        offset_of_field: u8,
    ) -> (r: &mut Self)
        requires
            old(self).spec_layout().wf(),
            1 <= size <= 4,
            first_named(
                old(self).spec_layout().spec_elements(),
                old(self).spec_layout().spec_len() as int,
                attribute,
            ) is Some || old(self).spec_layout().spec_len() < MAX_VERTEX_ATTRIBUTES,
        ensures
            *final(self) == *final(r),
            r.spec_layout().wf(),
            r.spec_layout().spec_stride() == old(self).spec_layout().spec_stride(),
            ({
                let old_layout = old(self).spec_layout();
                let desc = VertexAttributeDesc { name: attribute, format, size, normalized };
                match first_named(old_layout.spec_elements(), old_layout.spec_len() as int, attribute) {
                    Some(k) => r.spec_layout().spec_len() == old_layout.spec_len()
                        && r.spec_layout().spec_elements() == old_layout.spec_elements().update(k, desc)
                        && r.spec_layout().spec_offsets() == old_layout.spec_offsets(),
                    None => r.spec_layout().spec_len() == old_layout.spec_len() + 1
                        && r.spec_layout().spec_elements() == old_layout.spec_elements().update(
                        old_layout.spec_len() as int,
                        desc,
                    ) && r.spec_layout().spec_offsets() == old_layout.spec_offsets().update(
                        old_layout.spec_len() as int,
                        offset_of_field,
                    ),
                }
            }),
    {
        let desc = VertexAttributeDesc { name: attribute, format, size, normalized };
        let appended = self.0.position(attribute).is_none();
        let i = self.0.put(desc);
        if appended {
            self.0.offset[i] = offset_of_field;
        }
        self
    }

    /// Sets the stride and hands out the layout.
    pub fn finish(&mut self, stride: u8) -> (r: VertexLayout)
        requires
            old(self).spec_layout().wf(),
        ensures
            r == final(self).spec_layout(),
            r.wf(),
            r.spec_stride() == stride,
            r.spec_len() == old(self).spec_layout().spec_len(),
            r.spec_elements() == old(self).spec_layout().spec_elements(),
            r.spec_offsets() == old(self).spec_layout().spec_offsets(),
    {
        self.0.stride = stride;
        self.0
    }
}

/// A mesh decoded from its stored form, ready to be uploaded.
pub struct MeshData {
    pub layout: VertexLayout,
    pub index_format: IndexFormat,
    pub primitive: Primitive,
    pub num_verts: usize,
    pub num_idxes: usize,
    pub sub_mesh_offsets: Vec<usize>,
    pub verts: Vec<u8>,
    pub idxes: Vec<u8>,
}

} // verus!
