//! Image columns that fall in a chunk of the prompt.
use vstd::prelude::*;

verus! {

/// Image columns `[first, first + count)` go to a chunk's columns from `at` on.
#[derive(Clone, Copy)]
pub struct Splice {
    pub first: usize,
    pub count: usize,
    pub at: usize,
}

/// The image columns whose global index falls in a chunk: the image's `n_tok`
/// columns stand at `[image, image + n_tok)`, the chunk's tokens at
/// `[chunk, chunk + l)`.
pub open spec fn overlap(chunk: int, l: int, image: int, n_tok: int) -> Option<(int, int, int)> {
    let from = if chunk >= image {
        chunk
    } else {
        image
    };
    let to = if chunk + l <= image + n_tok {
        chunk + l
    } else {
        image + n_tok
    };
    if from < to {
        Some((from - image, to - from, from - chunk))
    } else {
        None
    }
}

/// The splice as its three numbers.
pub open spec fn splice_numbers(s: Option<Splice>) -> Option<(int, int, int)> {
    match s {
        Some(x) => Some((x.first as int, x.count as int, x.at as int)),
        None => None,
    }
}

/// Find the image columns that fall in a chunk.
pub fn image_overlap(chunk: usize, l: usize, image: usize, n_tok: usize) -> (r: Option<Splice>)
    requires
        chunk + l <= usize::MAX,
        image + n_tok <= usize::MAX,
    ensures
        splice_numbers(r) == overlap(chunk as int, l as int, image as int, n_tok as int),
        r matches Some(s) ==> s.first + s.count <= n_tok && s.at + s.count <= l && s.count >= 1,
{
    let from: usize = if chunk >= image {
        chunk
    } else {
        image
    };
    let chunk_end: usize = chunk + l;
    let image_end: usize = image + n_tok;
    let to: usize = if chunk_end <= image_end {
        chunk_end
    } else {
        image_end
    };
    if from < to {
        Some(Splice { first: from - image, count: to - from, at: from - chunk })
    } else {
        None
    }
}

/// Every image column that falls in a chunk lands on its own token: global
/// token `j` of the image takes image column `j - image`.
pub proof fn law_splice_places_every_column(chunk: int, l: int, image: int, n_tok: int, j: int)
    requires
        chunk <= j < chunk + l,
        image <= j < image + n_tok,
    ensures
        overlap(chunk, l, image, n_tok) matches Some((first, count, at)) && first <= j - image
            < first + count && at + (j - image - first) == j - chunk,
{
}

/// Chunk `k` is not empty.
pub open spec fn rises(cuts: Seq<int>, k: int) -> bool {
    cuts[k] < cuts[k + 1]
}

/// The cuts `0 = cuts[0] < cuts[1] < ...` part a prompt into chunks.
pub open spec fn parts_prompt(cuts: Seq<int>) -> bool {
    &&& cuts.len() >= 1
    &&& cuts[0] == 0
    &&& forall|k: int| 0 <= k < cuts.len() - 1 ==> #[trigger] rises(cuts, k)
}

/// Cuts as numbers.
pub open spec fn cut_points(cuts: Seq<usize>) -> Seq<int> {
    cuts.map_values(|c: usize| c as int)
}

/// Where a prompt of `total` tokens is cut into chunks of `size`, or of one where
/// there is no size; the last chunk takes what is left.
pub fn prompt_cuts(total: usize, size: u32) -> (r: Vec<usize>)
    ensures
        parts_prompt(cut_points(r@)),
        r@.last() == total,
        forall|k: int|
            #![trigger r@[k]]
            0 <= k < r@.len() - 1 ==> r@[k + 1] == if r@[k] + chunk_size(size) <= total {
                r@[k] + chunk_size(size)
            } else {
                total as int
            },
{
    let step: usize = if size == 0 {
        1
    } else {
        size as usize
    };
    let mut cuts: Vec<usize> = Vec::new();
    cuts.push(0);
    let mut at: usize = 0;
    while at < total
        invariant
            at <= total,
            step == chunk_size(size),
            cuts@.len() >= 1,
            cuts@[0] == 0,
            cuts@.last() == at,
            forall|k: int|
                #![trigger cuts@[k]]
                0 <= k < cuts@.len() - 1 ==> cuts@[k] < cuts@[k + 1] && cuts@[k + 1] == if cuts@[k]
                    + chunk_size(size) <= total {
                    cuts@[k] + chunk_size(size)
                } else {
                    total as int
                },
        decreases total - at,
    {
        let end: usize = if total - at >= step {
            at + step
        } else {
            total
        };
        cuts.push(end);
        at = end;
    }
    proof {
        let c = cut_points(cuts@);
        assert forall|k: int| 0 <= k < c.len() - 1 implies #[trigger] rises(c, k) by {
            assert(cuts@[k] < cuts@[k + 1]);
        }
    }
    cuts
}

/// Tokens of a whole chunk.
pub open spec fn chunk_size(size: u32) -> int {
    if size == 0 {
        1
    } else {
        size as int
    }
}

/// Chunk `k` takes image column `j`, as its own column `c`.
pub open spec fn takes_column(
    cuts: Seq<int>,
    k: int,
    image: int,
    n_tok: int,
    j: int,
    c: int,
) -> bool {
    &&& 0 <= k < cuts.len() - 1
    &&& overlap(cuts[k], cuts[k + 1] - cuts[k], image, n_tok) matches Some((first, count, at))
        && first <= j < first + count && c == at + (j - first)
}

/// Cuts rise.
proof fn lemma_cuts_rise(cuts: Seq<int>, a: int, b: int)
    requires
        parts_prompt(cuts),
        0 <= a <= b < cuts.len(),
    ensures
        cuts[a] <= cuts[b],
    decreases b - a,
{
    if a < b {
        lemma_cuts_rise(cuts, a, b - 1);
        assert(rises(cuts, b - 1));
    }
}

/// The chunk that holds token `t`, among the first `n` chunks.
proof fn lemma_chunk_of(cuts: Seq<int>, t: int, n: int) -> (k: int)
    requires
        parts_prompt(cuts),
        0 <= n < cuts.len(),
        0 <= t < cuts[n],
    ensures
        0 <= k < n,
        cuts[k] <= t < cuts[k + 1],
    decreases n,
{
    if n == 0 {
        0
    } else if cuts[n - 1] <= t {
        n - 1
    } else {
        lemma_chunk_of(cuts, t, n - 1)
    }
}

/// Over the chunks of a prompt that holds the whole image, each image column is
/// placed exactly once: in the chunk that holds its token, at that token's
/// column. No other column of any chunk is written.
pub proof fn law_every_column_is_placed_once(cuts: Seq<int>, image: int, n_tok: int, j: int) -> (k:
    int)
    requires
        parts_prompt(cuts),
        0 <= image,
        image + n_tok <= cuts.last(),
        0 <= j < n_tok,
    ensures
        takes_column(cuts, k, image, n_tok, j, image + j - cuts[k]),
        forall|other: int, c: int| #[trigger]
            takes_column(cuts, other, image, n_tok, j, c) ==> other == k && c == image + j
                - cuts[k],
        forall|other: int, i: int, c: int| #[trigger]
            takes_column(cuts, other, image, n_tok, i, c) ==> 0 <= i < n_tok && c == image + i
                - cuts[other] && 0 <= c < cuts[other + 1] - cuts[other],
{
    let t = image + j;
    let k = lemma_chunk_of(cuts, t, cuts.len() - 1);
    assert forall|other: int, c: int| #[trigger]
        takes_column(cuts, other, image, n_tok, j, c) implies other == k && c == image + j
        - cuts[k] by {
        assert(cuts[other] <= t < cuts[other + 1]);
        if other < k {
            lemma_cuts_rise(cuts, other + 1, k);
        } else if other > k {
            lemma_cuts_rise(cuts, k + 1, other);
        }
    }
    k
}

/// The elements of the image columns that a chunk takes, `width` to a column, and
/// the chunk's first column of them.
pub open spec fn taken_columns<F>(
    embeddings: Seq<F>,
    width: int,
    chunk: int,
    l: int,
    image: int,
    n_tok: int,
) -> Option<(Seq<F>, int)> {
    match overlap(chunk, l, image, n_tok) {
        Some((first, count, at)) => Some(
            (embeddings.subrange(first * width, (first + count) * width), at),
        ),
        None => None,
    }
}

/// The columns replace the chunk's column `c`.
pub open spec fn splices<F>(taken: Option<(Seq<F>, int)>, width: int, c: int) -> bool {
    taken matches Some((data, at)) && at <= c < at + data.len() as int / width
}

/// The columns replace the chunk's column `c` by `column`.
pub open spec fn spliced_at<F>(
    taken: Option<(Seq<F>, int)>,
    width: int,
    c: int,
    column: Seq<F>,
) -> bool {
    &&& splices(taken, width, c)
    &&& taken matches Some((data, at)) && data.subrange((c - at) * width, (c - at + 1) * width)
        == column
}

/// Columns `[first, first + count)` of `n` as elements.
proof fn lemma_span(first: int, count: int, width: int, n: int)
    by (nonlinear_arith)
    requires
        0 <= first,
        0 <= count,
        first + count <= n,
        width > 0,
    ensures
        0 <= first * width <= (first + count) * width,
        (first + count) * width <= width * n,
        (first + count) * width - first * width == count * width,
        (count * width) / width == count,
{
}

/// A chunk lies within the prompt.
pub proof fn lemma_chunk(cuts: Seq<int>, k: int)
    requires
        parts_prompt(cuts),
        0 <= k < cuts.len() - 1,
    ensures
        0 <= cuts[k] < cuts[k + 1] <= cuts.last(),
{
    lemma_cuts_rise(cuts, 0, k);
    assert(rises(cuts, k));
    lemma_cuts_rise(cuts, k + 1, cuts.len() - 1);
}

/// The image columns that chunk `k` takes.
pub open spec fn chunk_columns<F>(
    embeddings: Seq<F>,
    width: int,
    cuts: Seq<int>,
    k: int,
    image: int,
    n_tok: int,
) -> Option<(Seq<F>, int)> {
    taken_columns(embeddings, width, cuts[k], cuts[k + 1] - cuts[k], image, n_tok)
}

/// A chunk replaces column `c` exactly where it takes the image column that stands
/// there.
proof fn lemma_splices<F>(
    embeddings: Seq<F>,
    width: int,
    cuts: Seq<int>,
    k: int,
    image: int,
    n_tok: int,
    c: int,
)
    requires
        width > 0,
        0 <= k < cuts.len() - 1,
        embeddings.len() == width * n_tok,
        cuts[k] <= cuts[k + 1],
        n_tok >= 0,
    ensures
        splices(
            chunk_columns(embeddings, width, cuts, k, image, n_tok),
            width,
            c,
        ) <==> takes_column(cuts, k, image, n_tok, cuts[k] + c - image, c),
{
    match overlap(cuts[k], cuts[k + 1] - cuts[k], image, n_tok) {
        Some((first, count, _)) => {
            lemma_span(first, count, width, n_tok);
        },
        None => {},
    }
}

/// Over the chunks of a prompt that holds the whole image, the elements of each
/// image column replace a column exactly once: in the chunk that holds the
/// column's token, at that token's place. Every column that a chunk replaces is
/// that of an image token.
pub proof fn law_every_column_is_taken_once<F>(
    embeddings: Seq<F>,
    width: int,
    cuts: Seq<int>,
    image: int,
    n_tok: int,
    j: int,
) -> (k: int)
    requires
        width > 0,
        parts_prompt(cuts),
        0 <= image,
        image + n_tok <= cuts.last(),
        embeddings.len() == width * n_tok,
        0 <= j < n_tok,
    ensures
        0 <= k < cuts.len() - 1,
        spliced_at(
            chunk_columns(embeddings, width, cuts, k, image, n_tok),
            width,
            image + j - cuts[k],
            embeddings.subrange(j * width, (j + 1) * width),
        ),
        forall|other: int|
            0 <= other < cuts.len() - 1 && other != k ==> !#[trigger] splices(
                chunk_columns(embeddings, width, cuts, other, image, n_tok),
                width,
                image + j - cuts[other],
            ),
        forall|other: int, c: int|
            0 <= other < cuts.len() - 1 && #[trigger] splices(
                chunk_columns(embeddings, width, cuts, other, image, n_tok),
                width,
                c,
            ) ==> image <= cuts[other] + c < image + n_tok,
{
    let k = law_every_column_is_placed_once(cuts, image, n_tok, j);
    lemma_chunk(cuts, k);
    let c = image + j - cuts[k];
    lemma_splices(embeddings, width, cuts, k, image, n_tok, c);
    let (first, count, at) = overlap(cuts[k], cuts[k + 1] - cuts[k], image, n_tok)->0;
    lemma_span(first, count, width, n_tok);
    let d = c - at;
    assert(0 <= d * width && (d + 1) * width <= count * width && d * width <= (d + 1) * width
        && first * width + d * width == j * width && first * width + (d + 1) * width == (j + 1)
        * width) by (nonlinear_arith)
        requires
            0 <= d < count,
            first + d == j,
            width > 0,
    ;
    let data = embeddings.subrange(first * width, (first + count) * width);
    assert(data.subrange(d * width, (d + 1) * width) =~= embeddings.subrange(
        j * width,
        (j + 1) * width,
    ));
    assert forall|other: int| 0 <= other < cuts.len() - 1 && other != k implies !#[trigger] splices(
        chunk_columns(embeddings, width, cuts, other, image, n_tok),
        width,
        image + j - cuts[other],
    ) by {
        lemma_chunk(cuts, other);
        lemma_splices(embeddings, width, cuts, other, image, n_tok, image + j - cuts[other]);
    }
    assert forall|other: int, c: int|
        0 <= other < cuts.len() - 1 && #[trigger] splices(
            chunk_columns(embeddings, width, cuts, other, image, n_tok),
            width,
            c,
        ) implies image <= cuts[other] + c < image + n_tok by {
        lemma_chunk(cuts, other);
        lemma_splices(embeddings, width, cuts, other, image, n_tok, c);
    }
    k
}

/// A chunk that no image token falls in takes no columns, and a splice reaches
/// neither past the image nor past the chunk.
pub proof fn law_splice_stays_inside(chunk: int, l: int, image: int, n_tok: int)
    requires
        l >= 0,
        n_tok >= 0,
    ensures
        overlap(chunk, l, image, n_tok) matches Some((first, count, at)) ==> 0 <= first && count
            >= 1 && first + count <= n_tok && 0 <= at && at + count <= l,
{
}

} // verus!
