//! Strided views of device memory.
use vstd::prelude::*;

verus! {

/// Element types of the tensors that the models handle.
#[derive(Clone, Copy, PartialEq, Eq, Structural, Debug)]
pub enum GgmlType {
    F32,
    F16,
    BF16,
    Q4_K,
    Q5_K,
    Q6_K,
    Q5_1,
    Q8_0,
    /// A cache type whose rows are stored rotated, by its file number.
    Turbo(u32),
    /// Any other type, by its file number.
    Other(u32),
}

/// Whether rows of this type are stored rotated.
pub open spec fn turbo(t: GgmlType) -> bool {
    t is Turbo
}

/// Whether rows of this type are stored rotated.
pub fn is_turbo(t: GgmlType) -> (r: bool)
    ensures
        r == turbo(t),
{
    match t {
        GgmlType::Turbo(_) => true,
        _ => false,
    }
}

/// Extents or strides along the four axes.
#[derive(Clone, Copy, PartialEq, Eq, Structural, Debug)]
pub struct Dims {
    pub d0: u64,
    pub d1: u64,
    pub d2: u64,
    pub d3: u64,
}

/// A region of device memory.
#[derive(Clone, Copy, PartialEq, Eq, Structural, Debug)]
pub enum Buffer {
    /// Scratch of `bytes` bytes, allocated by the command with this index.
    Scratch { id: u64, bytes: u64 },
    /// The model file's tensor with this index.
    Weights(u64),
    /// Keys of a layer of the single-sequence cache.
    KeyLayer(u64),
    /// Values of a layer of the single-sequence cache.
    ValueLayer(u64),
    /// Keys of a layer, all slabs of the batch cache.
    KeySlabs(u64),
    /// Values of a layer, all slabs of the batch cache.
    ValueSlabs(u64),
    /// Convolution state of a recurrent layer.
    ConvState(u64),
    /// Recurrent state of a recurrent layer.
    GdnState(u64),
    /// Convolution input kept of a recurrent layer for a rollback.
    ConvBackup(u64),
    /// Recurrent states kept of a recurrent layer for a rollback.
    GdnSnapshots(u64),
    /// Convolution state of a recurrent layer, all slabs of the batch cache.
    ConvSlabs(u64),
    /// Recurrent state of a recurrent layer, all slabs of the batch cache.
    GdnSlabs(u64),
    /// The transposed token embedding of the diffusion model.
    TransposedEmbedding,
}

/// A strided view of a buffer.
#[derive(Clone, Copy, PartialEq, Eq, Structural, Debug)]
pub struct TensorView {
    pub buffer: Buffer,
    pub byte_offset: u64,
    pub byte_size: u64,
    pub dims: Dims,
    pub byte_stride: Dims,
    pub element_stride: Dims,
    pub dtype: GgmlType,
}

/// A stretch of a buffer.
#[derive(Clone, Copy, PartialEq, Eq, Structural, Debug)]
pub struct BufferRange {
    pub buffer: Buffer,
    pub offset: u64,
    pub size: u64,
}

/// 4-byte elements of `buffer` from `byte_offset` on, with the given extents
/// and element strides.
pub open spec fn strided_view(
    buffer: Buffer,
    byte_offset: int,
    byte_size: int,
    dims: Dims,
    strides: Dims,
) -> TensorView {
    TensorView {
        buffer,
        byte_offset: byte_offset as u64,
        byte_size: byte_size as u64,
        dims,
        byte_stride: dims4(
            4 * strides.d0,
            4 * strides.d1,
            4 * strides.d2,
            4 * strides.d3,
        ),
        element_stride: strides,
        dtype: GgmlType::F32,
    }
}

/// 4-byte elements of `buffer` from `byte_offset` on, with the given extents
/// and element strides.
pub fn strided(
    buffer: Buffer,
    byte_offset: u64,
    byte_size: u64,
    dims: Dims,
    strides: Dims,
) -> (r: TensorView)
    requires
        4 * strides.d0 <= u64::MAX,
        4 * strides.d1 <= u64::MAX,
        4 * strides.d2 <= u64::MAX,
        4 * strides.d3 <= u64::MAX,
    ensures
        r == strided_view(buffer, byte_offset as int, byte_size as int, dims, strides),
{
    TensorView {
        buffer,
        byte_offset,
        byte_size,
        dims,
        byte_stride: Dims {
            d0: 4 * strides.d0,
            d1: 4 * strides.d1,
            d2: 4 * strides.d2,
            d3: 4 * strides.d3,
        },
        element_stride: strides,
        dtype: GgmlType::F32,
    }
}

/// `floats` elements of `buffer` in a row from `byte_offset` on.
pub open spec fn flat_view(buffer: Buffer, byte_offset: int, floats: int) -> TensorView {
    strided_view(
        buffer,
        byte_offset,
        4 * floats,
        dims4(floats, 1, 1, 1),
        dims4(1, floats, floats, floats),
    )
}

/// `floats` elements of `buffer` in a row from `byte_offset` on.
pub fn flat(buffer: Buffer, byte_offset: u64, floats: u64) -> (r: TensorView)
    requires
        4 * floats <= u64::MAX,
    ensures
        r == flat_view(buffer, byte_offset as int, floats as int),
{
    strided(
        buffer,
        byte_offset,
        4 * floats,
        Dims { d0: floats, d1: 1, d2: 1, d3: 1 },
        Dims { d0: 1, d1: floats, d2: floats, d3: floats },
    )
}

/// The byte offset, within its buffer, of the element at `(i0, i1, i2, i3)`.
pub open spec fn address(t: TensorView, i0: int, i1: int, i2: int, i3: int) -> int {
    t.byte_offset + i0 * t.byte_stride.d0 + i1 * t.byte_stride.d1 + i2 * t.byte_stride.d2 + i3
        * t.byte_stride.d3
}

/// The extents `(a, b, c, d)`.
pub open spec fn dims4(a: int, b: int, c: int, d: int) -> Dims {
    Dims { d0: a as u64, d1: b as u64, d2: c as u64, d3: d as u64 }
}

/// Strides of a contiguous tensor with leading extents `(a, b, c)`, in units of
/// `unit`.
pub open spec fn contiguous(unit: int, a: int, b: int, c: int) -> Dims {
    dims4(unit, unit * a, unit * a * b, unit * a * b * c)
}

/// Every stride of a contiguous tensor of 4-byte elements, and its size, is at
/// most `room`.
pub open spec fn fits(room: u64, d: Dims) -> bool {
    &&& 4 * d.d0 <= room
    &&& 4 * d.d0 * d.d1 <= room
    &&& 4 * d.d0 * d.d1 * d.d2 <= room
    &&& 4 * d.d0 * d.d1 * d.d2 * d.d3 <= room
}

/// Bytes of a contiguous tensor of 4-byte elements.
#[verifier::opaque]
pub open spec fn size(d: Dims) -> nat {
    4 * d.d0 as nat * d.d1 as nat * d.d2 as nat * d.d3 as nat
}

/// A tensor with tokens in it fits exactly where its size does.
pub proof fn lemma_size(room: u64, d: Dims)
    ensures
        size(d) == 4 * d.d0 * d.d1 * d.d2 * d.d3,
        d.d1 >= 1 && d.d2 >= 1 && d.d3 >= 1 ==> (fits(room, d) <==> size(d) <= room),
{
    reveal(size);
    let a = 4 * d.d0;
    assert(d.d1 >= 1 ==> a <= a * d.d1) by (nonlinear_arith)
        requires
            a >= 0,
    ;
    assert(d.d1 >= 1 && d.d2 >= 1 ==> a * d.d1 <= a * d.d1 * d.d2) by (nonlinear_arith)
        requires
            a >= 0,
    ;
    assert(d.d1 >= 1 && d.d2 >= 1 && d.d3 >= 1 ==> a * d.d1 * d.d2 <= a * d.d1 * d.d2 * d.d3)
        by (nonlinear_arith)
        requires
            a >= 0,
    ;
}

/// Bytes of a matrix.
pub proof fn lemma_size_matrix(w: u64, l: u64)
    ensures
        size(matrix(w, l)) == 4 * w * l,
{
    lemma_size(0, matrix(w, l));
    assert(4 * w * l * 1 * 1 == 4 * w * l) by (nonlinear_arith);
}

/// Contiguous 4-byte elements over the whole of `buffer`.
pub open spec fn dense(buffer: Buffer, d: Dims) -> TensorView {
    TensorView {
        buffer,
        byte_offset: 0,
        byte_size: (4 * d.d0 * d.d1 * d.d2 * d.d3) as u64,
        dims: d,
        byte_stride: contiguous(4, d.d0 as int, d.d1 as int, d.d2 as int),
        element_stride: contiguous(1, d.d0 as int, d.d1 as int, d.d2 as int),
        dtype: GgmlType::F32,
    }
}

/// The view covers the whole of a scratch buffer without gaps.
pub open spec fn covers(t: TensorView) -> bool {
    t.buffer matches Buffer::Scratch { id: _, bytes } && t == dense(t.buffer, t.dims) && t.byte_size
        == bytes
}

/// A `[width, columns]` matrix.
pub open spec fn matrix(width: u64, columns: u64) -> Dims {
    Dims { d0: width, d1: columns, d2: 1, d3: 1 }
}

/// Heads of `head_dim` elements, `heads` of them for each of `l` tokens.
pub open spec fn headed(head_dim: u64, heads: u64, l: u64) -> Dims {
    Dims { d0: head_dim, d1: heads, d2: l, d3: 1 }
}

/// A matrix fits exactly where its size does.
pub proof fn lemma_matrix_fits(room: u64, w: u64, l: u64)
    requires
        l >= 1,
    ensures
        fits(room, matrix(w, l)) <==> 4 * w * l <= room,
{
    assert(4 * w <= 4 * w * l) by (nonlinear_arith)
        requires
            l >= 1,
    ;
    assert(4 * w * l * 1 == 4 * w * l && 4 * w * l * 1 * 1 == 4 * w * l);
}

/// Heads fit exactly where their size does.
pub proof fn lemma_headed_fits(room: u64, hd: u64, n: u64, l: u64)
    requires
        n >= 1,
        l >= 1,
    ensures
        fits(room, headed(hd, n, l)) <==> 4 * hd * n * l <= room,
{
    assert(4 * hd <= 4 * hd * n) by (nonlinear_arith)
        requires
            n >= 1,
    ;
    assert(4 * hd * n <= 4 * hd * n * l) by (nonlinear_arith)
        requires
            l >= 1,
            4 * hd * n >= 0,
    ;
    assert(4 * hd * n * l * 1 == 4 * hd * n * l);
}

/// `[width, l]` read as `[head_dim, heads, l]`: the same memory, contiguous.
pub open spec fn heads_view(t: TensorView, head_dim: u64, heads: u64, l: u64) -> TensorView {
    TensorView {
        dims: headed(head_dim, heads, l),
        byte_stride: contiguous(t.byte_stride.d0 as int, head_dim as int, heads as int, l as int),
        element_stride: contiguous(1, head_dim as int, heads as int, l as int),
        ..t
    }
}

/// Reshape a projection `[width, l]` to per-head layout `[head_dim, n_heads, l]`.
pub fn reshape_for_rope(t: TensorView, head_dim: u64, n_heads: u64, l: u64) -> (r: TensorView)
    requires
        t.byte_stride.d0 * head_dim <= u64::MAX,
        t.byte_stride.d0 * head_dim * n_heads <= u64::MAX,
        t.byte_stride.d0 * head_dim * n_heads * l <= u64::MAX,
        head_dim * n_heads <= u64::MAX,
        head_dim * n_heads * l <= u64::MAX,
    ensures
        r == heads_view(t, head_dim, n_heads, l),
{
    let elem: u64 = t.byte_stride.d0;
    assert(1 * head_dim * n_heads == head_dim * n_heads);
    assert(1 * head_dim * n_heads * l == head_dim * n_heads * l);
    TensorView {
        dims: Dims { d0: head_dim, d1: n_heads, d2: l, d3: 1 },
        byte_stride: Dims {
            d0: elem,
            d1: elem * head_dim,
            d2: elem * head_dim * n_heads,
            d3: elem * head_dim * n_heads * l,
        },
        element_stride: Dims {
            d0: 1,
            d1: head_dim,
            d2: head_dim * n_heads,
            d3: head_dim * n_heads * l,
        },
        ..t
    }
}

/// `[head_dim, heads, l]` read as `[head_dim, l, heads]`: the same memory, with
/// the strides of tokens and heads exchanged.
pub open spec fn attn_view(t: TensorView, head_dim: u64, l: u64, heads: u64) -> TensorView {
    TensorView {
        dims: Dims { d0: head_dim, d1: l, d2: heads, d3: 1 },
        byte_stride: dims4(
            t.byte_stride.d0 as int,
            t.byte_stride.d0 * head_dim * heads,
            t.byte_stride.d0 * head_dim,
            t.byte_stride.d0 * head_dim * heads * l,
        ),
        element_stride: dims4(
            1,
            head_dim * heads,
            head_dim as int,
            head_dim * heads * l,
        ),
        ..t
    }
}

/// Permute per-head layout `[head_dim, n_heads, l]` to the attention layout
/// `[head_dim, l, n_heads]`.
pub fn permute_to_attn(t: TensorView, head_dim: u64, l: u64, n_heads: u64) -> (r: TensorView)
    requires
        t.byte_stride.d0 * head_dim <= u64::MAX,
        t.byte_stride.d0 * head_dim * n_heads <= u64::MAX,
        t.byte_stride.d0 * head_dim * n_heads * l <= u64::MAX,
        head_dim * n_heads <= u64::MAX,
        head_dim * n_heads * l <= u64::MAX,
    ensures
        r == attn_view(t, head_dim, l, n_heads),
{
    let elem: u64 = t.byte_stride.d0;
    TensorView {
        dims: Dims { d0: head_dim, d1: l, d2: n_heads, d3: 1 },
        byte_stride: Dims {
            d0: elem,
            d1: elem * head_dim * n_heads,
            d2: elem * head_dim,
            d3: elem * head_dim * n_heads * l,
        },
        element_stride: Dims {
            d0: 1,
            d1: head_dim * n_heads,
            d2: head_dim,
            d3: head_dim * n_heads * l,
        },
        ..t
    }
}

/// The attention layout reads, for each token and head, the very element that
/// the per-head layout has there.
pub proof fn law_permuted_reads_the_same_memory(
    t: TensorView,
    head_dim: u64,
    heads: u64,
    l: u64,
    d: int,
    token: int,
    head: int,
)
    requires
        t.byte_stride.d0 * head_dim <= u64::MAX,
        t.byte_stride.d0 * head_dim * heads <= u64::MAX,
        t.byte_stride.d0 * head_dim * heads * l <= u64::MAX,
        0 <= d < head_dim,
        0 <= token < l,
        0 <= head < heads,
    ensures
        address(attn_view(heads_view(t, head_dim, heads, l), head_dim, l, heads), d, token, head, 0)
            == address(heads_view(t, head_dim, heads, l), d, head, token, 0),
{
}

/// A matrix read per head keeps every element in place: element `d` of head `h`
/// of a token is element `h * head_dim + d` of that token's column.
pub proof fn law_reshaped_reads_the_same_memory(
    buffer: Buffer,
    head_dim: u64,
    heads: u64,
    l: u64,
    d: int,
    head: int,
    token: int,
)
    requires
        4 * head_dim * heads <= u64::MAX,
        4 * head_dim * heads * l <= u64::MAX,
        4 * head_dim <= u64::MAX,
        head_dim * heads <= u64::MAX,
        0 <= d < head_dim,
        0 <= head < heads,
        0 <= token < l,
    ensures
        address(
            heads_view(
                dense(buffer, matrix((head_dim * heads) as u64, l)),
                head_dim,
                heads,
                l,
            ),
            d,
            head,
            token,
            0,
        ) == address(
            dense(buffer, matrix((head_dim * heads) as u64, l)),
            head * head_dim + d,
            token,
            0,
            0,
        ),
{
    let w = (head_dim * heads) as u64;
    assert(4 * head_dim * heads == 4 * (head_dim * heads)) by (nonlinear_arith);
    assert(head * (4 * head_dim) + d * 4 == (head * head_dim + d) * 4) by (nonlinear_arith);
}

/// The first `total_len` tokens of a cache layer, strides unchanged.
pub open spec fn prefix_view(layer: TensorView, total_len: u64) -> TensorView {
    TensorView {
        dims: Dims { d2: total_len, ..layer.dims },
        byte_size: (layer.byte_stride.d2 * total_len) as u64,
        ..layer
    }
}

/// Take the first `total_len` token positions of a cache layer.
pub fn slice_cache_prefix(layer: TensorView, total_len: u64) -> (r: TensorView)
    requires
        layer.byte_stride.d2 * total_len <= u64::MAX,
    ensures
        r == prefix_view(layer, total_len),
{
    let mut dims = layer.dims;
    dims.d2 = total_len;
    TensorView { dims, byte_size: layer.byte_stride.d2 * total_len, ..layer }
}

/// Column `c` of a `[width, _]` matrix of 4-byte elements.
pub open spec fn one_column(t: TensorView, width: u64, c: int) -> TensorView {
    TensorView {
        byte_offset: (t.byte_offset + c * width * 4) as u64,
        byte_size: (width * 4) as u64,
        dims: matrix(width, 1),
        byte_stride: dims4(4, width * 4, width * 4, width * 4),
        element_stride: dims4(1, width as int, width as int, width as int),
        ..t
    }
}

/// Column `c` of a `[width, _]` matrix of 4-byte elements.
pub fn last_column(t: TensorView, width: u64, c: u64) -> (r: TensorView)
    requires
        width * 4 <= u64::MAX,
        c * width <= u64::MAX,
        c * width * 4 <= u64::MAX,
        t.byte_offset + c * width * 4 <= u64::MAX,
    ensures
        r == one_column(t, width, c as int),
{
    TensorView {
        byte_offset: t.byte_offset + c * width * 4,
        byte_size: width * 4,
        dims: Dims { d0: width, d1: 1, d2: 1, d3: 1 },
        byte_stride: Dims { d0: 4, d1: width * 4, d2: width * 4, d3: width * 4 },
        element_stride: Dims { d0: 1, d1: width, d2: width, d3: width },
        ..t
    }
}

/// Columns `[c0, c0 + count)` of a contiguous `[width, _]` matrix.
pub open spec fn columns(t: TensorView, c0: int, count: int) -> TensorView {
    TensorView {
        byte_offset: (t.byte_offset + c0 * t.byte_stride.d1) as u64,
        byte_size: (count * t.byte_stride.d1) as u64,
        dims: dims4(t.dims.d0 as int, count, 1, 1),
        ..t
    }
}

/// Columns `[c0, c0 + count)` of a contiguous `[width, _]` matrix.
pub fn col_slice(t: TensorView, c0: u64, count: u64) -> (r: TensorView)
    requires
        c0 * t.byte_stride.d1 <= u64::MAX,
        t.byte_offset + c0 * t.byte_stride.d1 <= u64::MAX,
        count * t.byte_stride.d1 <= u64::MAX,
    ensures
        r == columns(t, c0 as int, count as int),
{
    let col_stride: u64 = t.byte_stride.d1;
    TensorView {
        byte_offset: t.byte_offset + c0 * col_stride,
        byte_size: count * col_stride,
        dims: Dims { d0: t.dims.d0, d1: count, d2: 1, d3: 1 },
        ..t
    }
}

/// A column slice begins where its first column lies in the matrix.
pub proof fn law_column_slice_reads_the_same_memory(
    t: TensorView,
    c0: u64,
    count: u64,
    row: int,
    column: int,
)
    requires
        t.byte_offset + c0 * t.byte_stride.d1 <= u64::MAX,
        0 <= column < count,
    ensures
        address(columns(t, c0 as int, count as int), row, column, 0, 0) == address(
            t,
            row,
            c0 + column,
            0,
            0,
        ),
{
    assert(c0 * t.byte_stride.d1 >= 0) by (nonlinear_arith);
    assert((c0 + column) * t.byte_stride.d1 == c0 * t.byte_stride.d1 + column * t.byte_stride.d1)
        by (nonlinear_arith);
}

/// One column repeated over `n`.
pub open spec fn repeated(t: TensorView, n: u64) -> TensorView {
    TensorView {
        dims: matrix(t.dims.d0, n),
        byte_stride: Dims { d0: t.byte_stride.d0, d1: 0, d2: 0, d3: 0 },
        element_stride: Dims { d0: t.element_stride.d0, d1: 0, d2: 0, d3: 0 },
        ..t
    }
}

/// Broadcast a column across `n` columns.
pub fn broadcast_col(t: TensorView, n: u64) -> (r: TensorView)
    ensures
        r == repeated(t, n),
{
    TensorView {
        dims: Dims { d0: t.dims.d0, d1: n, d2: 1, d3: 1 },
        byte_stride: Dims { d0: t.byte_stride.d0, d1: 0, d2: 0, d3: 0 },
        element_stride: Dims { d0: t.element_stride.d0, d1: 0, d2: 0, d3: 0 },
        ..t
    }
}

/// A repeated column reads the same element in every column.
pub proof fn law_broadcast_repeats_one_column(t: TensorView, n: u64, row: int, a: int, b: int)
    ensures
        address(repeated(t, n), row, a, 0, 0) == address(repeated(t, n), row, b, 0, 0),
{
    assert(a * 0 == 0 && b * 0 == 0);
}

} // verus!
