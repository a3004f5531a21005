//! Decoder positions of multi-section rotary embedding, with image spans.
use vstd::prelude::*;

verus! {

/// Placement of one image's merged tokens: `n_tok = nx * ny` consecutive slots
/// from `start`, in raster order over the merged grid.
#[derive(Clone, Copy, Debug)]
pub struct ImageSpan {
    pub start: usize,
    pub n_tok: usize,
    pub nx: usize,
    pub ny: usize,
}

/// The greater of the two grid dims.
pub open spec fn side(im: ImageSpan) -> int {
    if im.nx >= im.ny {
        im.nx as int
    } else {
        im.ny as int
    }
}

/// `im` is the first of `images` that starts at token `i`.
pub open spec fn starts_at(images: Seq<ImageSpan>, i: int, k: int) -> bool {
    &&& 0 <= k < images.len()
    &&& images[k].start == i
    &&& forall|m: int| 0 <= m < k ==> (#[trigger] images[m]).start != i
}

/// Some image starts at token `i`.
pub open spec fn image_here(images: Seq<ImageSpan>, i: int) -> bool {
    exists|k: int| starts_at(images, i, k)
}

/// The image that starts at token `i`.
pub open spec fn image_at(images: Seq<ImageSpan>, i: int) -> ImageSpan {
    images[choose|k: int| starts_at(images, i, k)]
}

/// The four axis values of token `k` of an image at base `b`: time, row, column
/// and the unused axis.
pub open spec fn image_axes(im: ImageSpan, b: int, k: int) -> (int, int, int, int) {
    (b, b + k / im.nx as int, b + k % im.nx as int, 0)
}

/// The axis values of tokens `i..l` with the cursor at `c`: a text token has the
/// cursor on every axis and moves it by 1; an image has its grid around the
/// cursor and moves it by its longer side.
pub open spec fn axes_from(images: Seq<ImageSpan>, l: int, i: int, c: int) -> Seq<
    (int, int, int, int),
>
    decreases
            (if i < l {
                l - i
            } else {
                0
            }),
{
    if i >= l {
        seq![]
    } else if image_here(images, i) && image_at(images, i).n_tok > 0 {
        let im = image_at(images, i);
        Seq::new(im.n_tok as nat, |k: int| image_axes(im, c, k)) + axes_from(
            images,
            l,
            i + im.n_tok,
            c + side(im),
        )
    } else {
        seq![(c, c, c, c)] + axes_from(images, l, i + 1, c + 1)
    }
}

/// Where the cursor stands after tokens `i..l`, from `c` on.
pub open spec fn cursor_after(images: Seq<ImageSpan>, l: int, i: int, c: int) -> int
    decreases
            (if i < l {
                l - i
            } else {
                0
            }),
{
    if i >= l {
        c
    } else if image_here(images, i) && image_at(images, i).n_tok > 0 {
        let im = image_at(images, i);
        cursor_after(images, l, i + im.n_tok, c + side(im))
    } else {
        cursor_after(images, l, i + 1, c + 1)
    }
}

/// The cursor moves on, by no more than one for each token.
pub proof fn lemma_cursor(images: Seq<ImageSpan>, l: int, i: int, c: int)
    requires
        0 <= i <= l,
        spans_fit(images, l),
    ensures
        c <= cursor_after(images, l, i, c) <= c + (l - i),
    decreases l - i,
{
    if i < l {
        if image_here(images, i) {
            let k = choose|k: int| starts_at(images, i, k);
            assert(starts_at(images, i, k));
            let im = image_at(images, i);
            assert(images[k].start < l);
            lemma_side(im);
            lemma_cursor(images, l, i + im.n_tok, c + side(im));
        } else {
            lemma_cursor(images, l, i + 1, c + 1);
        }
    }
}

/// Every image that starts among the first `l` tokens fits there, with as many
/// tokens as its grid has cells.
pub open spec fn spans_fit(images: Seq<ImageSpan>, l: int) -> bool {
    forall|k: int|
        0 <= k < images.len() && (#[trigger] images[k]).start < l ==> {
            &&& images[k].n_tok > 0
            &&& images[k].n_tok == images[k].nx * images[k].ny
            &&& images[k].start + images[k].n_tok <= l
        }
}

/// Axis `a` of a token's values.
pub open spec fn axis(v: (int, int, int, int), a: int) -> int {
    if a == 0 {
        v.0
    } else if a == 1 {
        v.1
    } else if a == 2 {
        v.2
    } else {
        v.3
    }
}

/// `out` holds `values`, axis after axis.
pub open spec fn axis_major(out: Seq<u32>, values: Seq<(int, int, int, int)>) -> bool {
    &&& out.len() == 4 * values.len()
    &&& forall|a: int, t: int|
        0 <= a < 4 && 0 <= t < values.len() ==> #[trigger] out[a * values.len() + t] == axis(
            #[trigger] values[t],
            a,
        )
}

/// Sides of a grid are no longer than the number of its cells.
proof fn lemma_side(im: ImageSpan)
    requires
        im.n_tok > 0,
        im.n_tok == im.nx * im.ny,
    ensures
        im.nx > 0,
        im.ny > 0,
        side(im) <= im.n_tok,
{
    assert(im.nx > 0 && im.ny > 0 && im.nx <= im.nx * im.ny && im.ny <= im.nx * im.ny)
        by (nonlinear_arith)
        requires
            im.nx * im.ny > 0,
            im.nx >= 0,
            im.ny >= 0,
    ;
}

/// A run without images is linear, and the walk goes on behind it.
proof fn lemma_text_run(images: Seq<ImageSpan>, l: int, i: int, c: int, n: int)
    requires
        0 <= n,
        i + n <= l,
        forall|j: int| i <= j < i + n ==> !#[trigger] image_here(images, j),
    ensures
        axes_from(images, l, i, c) == Seq::new(
            n as nat,
            |k: int| (c + k, c + k, c + k, c + k),
        ) + axes_from(images, l, i + n, c + n),
    decreases n,
{
    if n == 0 {
        assert(axes_from(images, l, i, c) =~= Seq::new(
            0,
            |k: int| (c + k, c + k, c + k, c + k),
        ) + axes_from(images, l, i, c));
    } else {
        assert(!image_here(images, i));
        lemma_text_run(images, l, i + 1, c + 1, n - 1);
        assert(axes_from(images, l, i, c) =~= Seq::new(
            n as nat,
            |k: int| (c + k, c + k, c + k, c + k),
        ) + axes_from(images, l, i + n, c + n));
    }
}

/// The image of `images` that starts at token `i`, if any.
fn find_image(images: &[ImageSpan], i: usize) -> (r: Option<ImageSpan>)
    ensures
        r is Some <==> image_here(images@, i as int),
        r matches Some(im) ==> im == image_at(images@, i as int) && im.start == i
            && images@.contains(im),
{
    let mut k: usize = 0;
    while k < images.len()
        invariant
            k <= images@.len(),
            forall|m: int| 0 <= m < k ==> (#[trigger] images@[m]).start != i,
        decreases images@.len() - k,
    {
        if images[k].start == i {
            proof {
                assert(starts_at(images@, i as int, k as int));
                let j = choose|j: int| starts_at(images@, i as int, j);
                assert(starts_at(images@, i as int, j));
                if j < k {
                    assert(images@[j].start != i);
                } else if k < j {
                    assert(images@[k as int].start != i);
                }
            }
            return Some(images[k]);
        }
        k += 1;
    }
    None
}

/// Set the four axes of token `t` of a sequence of `l` tokens.
fn set_axes(out: &mut Vec<u32>, l: usize, t: usize, v: (u32, u32, u32, u32))
    requires
        t < l,
        4 * l <= usize::MAX,
        old(out)@.len() == 4 * l,
    ensures
        final(out)@ == old(out)@.update(t as int, v.0).update(l + t, v.1).update(
            2 * l + t,
            v.2,
        ).update(3 * l + t, v.3),
{
    out.set(t, v.0);
    out.set(l + t, v.1);
    out.set(2 * l + t, v.2);
    out.set(3 * l + t, v.3);
}

/// The values of the first `n` tokens stand in `out`.
pub open spec fn filled(out: Seq<u32>, l: int, values: Seq<(int, int, int, int)>, n: int) -> bool {
    &&& out.len() == 4 * l
    &&& forall|t: int|
        0 <= t < n ==> {
            let v = #[trigger] values[t];
            &&& out[t] == v.0
            &&& out[l + t] == v.1
            &&& out[2 * l + t] == v.2
            &&& out[3 * l + t] == v.3
        }
}

proof fn lemma_filled_is_axis_major(out: Seq<u32>, l: int, values: Seq<(int, int, int, int)>)
    requires
        values.len() == l,
        filled(out, l, values, l),
    ensures
        axis_major(out, values),
{
    assert forall|a: int, t: int| 0 <= a < 4 && 0 <= t < values.len() implies #[trigger] out[a
        * values.len() + t] == axis(#[trigger] values[t], a) by {
        assert(a == 0 || a == 1 || a == 2 || a == 3);
        if a == 0 {
            assert(a * values.len() + t == t);
        } else if a == 1 {
            assert(a * values.len() + t == l + t);
        } else if a == 2 {
            assert(a * values.len() + t == 2 * l + t);
        } else {
            assert(a * values.len() + t == 3 * l + t);
        }
    }
}

/// Build the four-axis decoder positions of `l` tokens that may hold image
/// spans, axis after axis, with the first token at `pos0`.
pub fn build_decoder_mrope_positions(l: usize, pos0: u32, images: &[ImageSpan]) -> (out: Vec<u32>)
    requires
        4 * l <= usize::MAX,
        cursor_after(images@, l as int, 0, pos0 as int) <= u32::MAX,
        spans_fit(images@, l as int),
    ensures
        axes_from(images@, l as int, 0, pos0 as int).len() == l,
        axis_major(out@, axes_from(images@, l as int, 0, pos0 as int)),
{
    let zero: u32 = 0;
    let mut out: Vec<u32> = vec![zero; 4 * l];
    let mut cursor: u32 = pos0;
    let mut i: usize = 0;
    let ghost all = axes_from(images@, l as int, 0, pos0 as int);
    proof {
        lemma_axes_len(images@, l as int, 0, pos0 as int);
        assert(all.subrange(0, l as int) =~= all);
    }
    while i < l
        invariant
            i <= l,
            4 * l <= usize::MAX,
            spans_fit(images@, l as int),
            cursor_after(images@, l as int, i as int, cursor as int) <= u32::MAX,
            all == axes_from(images@, l as int, 0, pos0 as int),
            all.len() == l,
            axes_from(images@, l as int, i as int, cursor as int) == all.subrange(
                i as int,
                l as int,
            ),
            filled(out@, l as int, all, i as int),
        decreases l - i,
    {
        let ghost tail = axes_from(images@, l as int, i as int, cursor as int);
        match find_image(images, i) {
            Some(img) => {
                proof {
                    let k = choose|k: int| 0 <= k < images@.len() && images@[k] == img;
                    assert(images@[k].start < l);
                    lemma_side(img);
                    lemma_cursor(
                        images@,
                        l as int,
                        i + img.n_tok,
                        cursor as int + side(img),
                    );
                }
                let base: u32 = cursor;
                let mut k: usize = 0;
                while k < img.n_tok
                    invariant
                        k <= img.n_tok,
                        img.nx > 0,
                        i + img.n_tok <= l,
                        4 * l <= usize::MAX,
                        base + side(img) <= u32::MAX,
                        img.n_tok == img.nx * img.ny,
                        all.len() == l,
                        tail == all.subrange(i as int, l as int),
                        forall|m: int|
                            0 <= m < img.n_tok ==> #[trigger] tail[m] == image_axes(
                                img,
                                base as int,
                                m,
                            ),
                        filled(out@, l as int, all, i + k),
                    decreases img.n_tok - k,
                {
                    let tok: usize = i + k;
                    let row: usize = k / img.nx;
                    let col: usize = k % img.nx;
                    assert(row < img.ny && col < img.nx) by (nonlinear_arith)
                        requires
                            row == k / img.nx,
                            col == k % img.nx,
                            img.nx > 0,
                            k < img.nx * img.ny,
                    ;
                    set_axes(&mut out, l, tok, (base, base + row as u32, base + col as u32, 0));
                    assert(all[tok as int] == tail[k as int]);
                    k += 1;
                }
                let longer: usize = if img.nx >= img.ny {
                    img.nx
                } else {
                    img.ny
                };
                cursor = base + longer as u32;
                i += img.n_tok;
                proof {
                    assert(tail =~= Seq::new(
                        img.n_tok as nat,
                        |m: int| image_axes(img, base as int, m),
                    ) + axes_from(images@, l as int, i as int, cursor as int));
                    let next = axes_from(images@, l as int, i as int, cursor as int);
                    assert(next =~= tail.subrange(img.n_tok as int, tail.len() as int));
                    assert(next =~= all.subrange(i as int, l as int));
                }
            },
            None => {
                proof {
                    lemma_cursor(images@, l as int, i + 1, cursor + 1);
                }
                set_axes(&mut out, l, i, (cursor, cursor, cursor, cursor));
                proof {
                    let c = cursor as int;
                    assert(tail[0] == (c, c, c, c));
                    assert(all[i as int] == tail[0]);
                    let next = axes_from(images@, l as int, i + 1, c + 1);
                    assert(next =~= tail.subrange(1, tail.len() as int));
                    assert(next =~= all.subrange(i + 1, l as int));
                }
                cursor += 1;
                i += 1;
            },
        }
    }
    proof {
        lemma_filled_is_axis_major(out@, l as int, all);
    }
    out
}

/// Where images fit, the walk gives every token one set of values.
proof fn lemma_axes_len(images: Seq<ImageSpan>, l: int, i: int, c: int)
    requires
        0 <= i <= l,
        spans_fit(images, l),
    ensures
        axes_from(images, l, i, c).len() == l - i,
    decreases l - i,
{
    if i < l {
        if image_here(images, i) {
            let k = choose|k: int| starts_at(images, i, k);
            assert(starts_at(images, i, k));
            let im = image_at(images, i);
            assert(images[k].start < l);
            lemma_axes_len(images, l, i + im.n_tok, c + side(im));
        } else {
            lemma_axes_len(images, l, i + 1, c + 1);
        }
    }
}

/// The axis values of global token `j`, in closed form: linear before the image
/// and without one; the grid inside it; behind it linear again, moved on by the
/// longer side instead of the number of tokens.
pub open spec fn window_axes(pos0: u32, image: Option<ImageSpan>, j: int) -> (int, int, int, int) {
    match image {
        Some(im) => if j >= im.start && j < im.start + im.n_tok {
            image_axes(im, pos0 + im.start, j - im.start)
        } else if j >= im.start + im.n_tok {
            let c = pos0 + im.start + side(im) + (j - (im.start + im.n_tok));
            (c, c, c, c)
        } else {
            (pos0 + j, pos0 + j, pos0 + j, pos0 + j)
        },
        None => (pos0 + j, pos0 + j, pos0 + j, pos0 + j),
    }
}

/// The values fit 32 bits.
pub open spec fn fits(v: (int, int, int, int)) -> bool {
    v.0 <= u32::MAX && v.1 <= u32::MAX && v.2 <= u32::MAX && v.3 <= u32::MAX
}

/// Build the positions of the global tokens `window_start ..
/// window_start + window_len` alone, axis after axis. `image.start` is a global
/// index, so an image may straddle windows.
pub fn build_decoder_mrope_positions_window(
    pos0: u32,
    image: Option<ImageSpan>,
    window_start: usize,
    window_len: usize,
) -> (out: Vec<u32>)
    requires
        4 * window_len <= usize::MAX,
        window_start + window_len <= usize::MAX,
        image matches Some(im) ==> im.start + im.n_tok <= usize::MAX && (im.n_tok > 0 ==> im.nx > 0),
        forall|j: int|
            window_start <= j < window_start + window_len ==> fits(
                #[trigger] window_axes(pos0, image, j),
            ),
    ensures
        axis_major(
            out@,
            Seq::new(window_len as nat, |t: int| window_axes(pos0, image, window_start + t)),
        ),
{
    let zero: u32 = 0;
    let mut out: Vec<u32> = vec![zero; 4 * window_len];
    let ghost all = Seq::new(
        window_len as nat,
        |t: int| window_axes(pos0, image, window_start + t),
    );
    let mut t: usize = 0;
    while t < window_len
        invariant
            t <= window_len,
            4 * window_len <= usize::MAX,
            window_start + window_len <= usize::MAX,
            image matches Some(im) ==> im.start + im.n_tok <= usize::MAX && (im.n_tok > 0 ==> im.nx
                > 0),
            forall|j: int|
                window_start <= j < window_start + window_len ==> fits(
                    #[trigger] window_axes(pos0, image, j),
                ),
            all == Seq::new(
                window_len as nat,
                |t: int| window_axes(pos0, image, window_start + t),
            ),
            filled(out@, window_len as int, all, t as int),
        decreases window_len - t,
    {
        let j: usize = window_start + t;
        assert(fits(window_axes(pos0, image, j as int)));
        assert(all[t as int] == window_axes(pos0, image, j as int));
        let v: (u32, u32, u32, u32) = match image {
            Some(im) => {
                if j >= im.start && j < im.start + im.n_tok {
                    let k: usize = j - im.start;
                    let base: u32 = pos0 + im.start as u32;
                    let row: usize = k / im.nx;
                    let col: usize = k % im.nx;
                    (base, base + row as u32, base + col as u32, 0)
                } else if j >= im.start + im.n_tok {
                    let longer: usize = if im.nx >= im.ny {
                        im.nx
                    } else {
                        im.ny
                    };
                    let after: u32 = (j - (im.start + im.n_tok)) as u32;
                    let c: u32 = pos0 + im.start as u32 + longer as u32 + after;
                    (c, c, c, c)
                } else {
                    let c: u32 = pos0 + j as u32;
                    (c, c, c, c)
                }
            },
            None => {
                let c: u32 = pos0 + j as u32;
                (c, c, c, c)
            },
        };
        set_axes(&mut out, window_len, t, v);
        t += 1;
    }
    proof {
        lemma_filled_is_axis_major(out@, window_len as int, all);
    }
    out
}

/// Every window of a sequence with one image has the values that the whole
/// sequence has there, wherever it starts and ends.
pub proof fn law_window_matches_whole(pos0: u32, im: ImageSpan, l: int, j: int)
    requires
        spans_fit(seq![im], l),
        im.start < l,
        0 <= j < l,
    ensures
        axes_from(seq![im], l, 0, pos0 as int).len() == l,
        axes_from(seq![im], l, 0, pos0 as int)[j] == window_axes(pos0, Some(im), j),
{
    let images = seq![im];
    let s = im.start as int;
    let c = pos0 as int;
    assert(images[0].start < l);
    assert(im.n_tok > 0 && im.n_tok == im.nx * im.ny && im.start + im.n_tok <= l);
    lemma_side(im);
    lemma_axes_len(images, l, 0, c);
    assert forall|i: int| i != s implies !#[trigger] image_here(images, i) by {
        if image_here(images, i) {
            let k = choose|k: int| starts_at(images, i, k);
            assert(starts_at(images, i, k));
        }
    }
    assert(starts_at(images, s, 0));
    assert(image_here(images, s));
    let k0 = choose|k: int| starts_at(images, s, k);
    assert(starts_at(images, s, k0));
    assert(image_at(images, s) == im);
    lemma_text_run(images, l, 0, c, s);
    let e = s + im.n_tok;
    lemma_text_run(images, l, e, c + s + side(im), l - e);
    let rest = axes_from(images, l, s, c + s);
    assert(rest == Seq::new(im.n_tok as nat, |k: int| image_axes(im, c + s, k)) + axes_from(
        images,
        l,
        e,
        c + s + side(im),
    ));
}

/// Every window of a text-only sequence has the values that the whole sequence
/// has there: the linear position on every axis.
pub proof fn law_text_window_matches_whole(pos0: u32, l: int, j: int)
    requires
        0 <= j < l,
    ensures
        axes_from(seq![], l, 0, pos0 as int)[j] == window_axes(pos0, None, j),
        axes_from(seq![], l, 0, pos0 as int)[j] == (pos0 + j, pos0 + j, pos0 + j, pos0 + j),
{
    assert forall|i: int| !#[trigger] image_here(Seq::<ImageSpan>::empty(), i) by {
        if image_here(Seq::<ImageSpan>::empty(), i) {
            let k = choose|k: int| starts_at(Seq::<ImageSpan>::empty(), i, k);
            assert(starts_at(Seq::<ImageSpan>::empty(), i, k));
        }
    }
    lemma_text_run(seq![], l, 0, pos0 as int, l);
}

/// `values`, axis after axis.
pub open spec fn flattened(values: Seq<(int, int, int, int)>) -> Seq<u32> {
    Seq::new(
        4 * values.len(),
        |i: int| axis(values[i % values.len() as int], i / values.len() as int) as u32,
    )
}

/// Axis-major lists are flattened values.
pub proof fn lemma_flattened(out: Seq<u32>, values: Seq<(int, int, int, int)>)
    requires
        axis_major(out, values),
    ensures
        out == flattened(values),
{
    let n = values.len() as int;
    assert forall|i: int| 0 <= i < out.len() implies out[i] == flattened(values)[i] by {
        vstd::arithmetic::div_mod::lemma_fundamental_div_mod(i, n);
        assert(0 <= i % n < n && 0 <= i / n < 4) by (nonlinear_arith)
            requires
                0 <= i < 4 * n,
                n > 0,
        ;
        let a = i / n;
        let t = i % n;
        assert(a * values.len() + t == i) by (nonlinear_arith)
            requires
                i == n * a + t,
                n == values.len(),
        ;
        assert(out[a * values.len() + t] == axis(values[t], a));
    }
    assert(out =~= flattened(values));
}

/// A list for each of the four axes, all the same.
pub open spec fn four(positions: Seq<u32>) -> Seq<u32> {
    positions + positions + positions + positions
}

/// Repeat a list for each of the four axes.
pub fn four_axes(positions: &[u32]) -> (r: Vec<u32>)
    ensures
        r@ == four(positions@),
{
    let mut out: Vec<u32> = Vec::new();
    let mut a: usize = 0;
    let ghost p = positions@;
    while a < 4
        invariant
            a <= 4,
            p == positions@,
            a == 0 ==> out@ == Seq::<u32>::empty(),
            a == 1 ==> out@ == p,
            a == 2 ==> out@ == p + p,
            a == 3 ==> out@ == p + p + p,
            a == 4 ==> out@ == p + p + p + p,
        decreases 4 - a,
    {
        let ghost before = out@;
        out.extend_from_slice(positions);
        proof {
            assert(out@ =~= before + p);
            assert(Seq::<u32>::empty() + p =~= p);
        }
        a += 1;
    }
    out
}

} // verus!
