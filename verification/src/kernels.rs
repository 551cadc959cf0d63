//! Index arithmetic of the two neighbourhood operations on the brightness
//! grid: Floyd–Steinberg error diffusion and the 3×3 edge window.

use vstd::prelude::*;

verus! {

/// Where Floyd–Steinberg sends the quantisation error of pixel `(x, y)` in a
/// `w` by `h` raster: each target index with its share in sixteenths —
/// 7 to the right, then on the next row 3 down-left, 5 down, 1 down-right,
/// each only where that neighbour exists.
pub open spec fn diffusion_spec(x: int, y: int, w: int, h: int) -> Seq<(usize, u32)> {
    let idx = y * w + x;
    let right: Seq<(usize, u32)> = if x + 1 < w {
        seq![((idx + 1) as usize, 7u32)]
    } else {
        Seq::empty()
    };
    let below: Seq<(usize, u32)> = if y + 1 < h {
        (if x > 0 {
            seq![((idx + w - 1) as usize, 3u32)]
        } else {
            Seq::empty()
        }) + seq![((idx + w) as usize, 5u32)] + (if x + 1 < w {
            seq![((idx + w + 1) as usize, 1u32)]
        } else {
            Seq::empty()
        })
    } else {
        Seq::empty()
    };
    right + below
}

/// Sum of the shares of a list of targets.
pub open spec fn share_sum(t: Seq<(usize, u32)>) -> int
    decreases t.len(),
{
    if t.len() == 0 {
        0
    } else {
        share_sum(t.drop_last()) + t.last().1
    }
}

proof fn lemma_grid_index(x: int, y: int, w: int, h: int)
    requires
        0 <= x < w,
        0 <= y < h,
    ensures
        0 <= y * w,
        y * w + w <= h * w,
        (y + 1) * w == y * w + w,
{
    assert(0 <= y * w) by (nonlinear_arith)
        requires
            0 <= y,
            0 <= w,
    ;
    assert((y + 1) * w <= h * w) by (nonlinear_arith)
        requires
            y + 1 <= h,
            0 <= w,
    ;
    assert((y + 1) * w == y * w + w) by (nonlinear_arith);
}

/// The error-diffusion targets of pixel `(x, y)`.
pub fn diffusion_targets(x: usize, y: usize, w: usize, h: usize) -> (t: Vec<(usize, u32)>)
    requires
        x < w,
        y < h,
        w * h <= usize::MAX,
    ensures
        t@ == diffusion_spec(x as int, y as int, w as int, h as int),
{
    proof {
        lemma_grid_index(x as int, y as int, w as int, h as int);
    }
    let idx = y * w + x;
    let mut t: Vec<(usize, u32)> = Vec::new();
    if x + 1 < w {
        t.push((idx + 1, 7));
    }
    if y + 1 < h {
        proof {
            lemma_grid_index(x as int, y as int + 1, w as int, h as int);
        }
        if x > 0 {
            t.push((idx + w - 1, 3));
        }
        t.push((idx + w, 5));
        if x + 1 < w {
            t.push((idx + w + 1, 1));
        }
    }
    proof {
        assert(t@ =~= diffusion_spec(x as int, y as int, w as int, h as int));
    }
    t
}

/// Error diffusion only moves error forward: every target of pixel `(x, y)`
/// lies inside the raster and after the pixel in raster order, no target is
/// named twice, the shares never exceed the whole error, and a pixel with
/// all four neighbours passes on exactly the whole error (16 sixteenths).
pub proof fn law_diffusion_moves_error_forward(x: int, y: int, w: int, h: int)
    requires
        0 <= x < w,
        0 <= y < h,
        w * h <= usize::MAX,
    ensures
        forall|k: int|
            0 <= k < diffusion_spec(x, y, w, h).len() ==> y * w + x < (
            #[trigger] diffusion_spec(x, y, w, h)[k]).0 < w * h,
        forall|k: int, l: int|
            0 <= k < l < diffusion_spec(x, y, w, h).len() ==> (
            #[trigger] diffusion_spec(x, y, w, h)[k]).0 != (#[trigger] diffusion_spec(
                x,
                y,
                w,
                h,
            )[l]).0,
        share_sum(diffusion_spec(x, y, w, h)) <= 16,
        0 < x && x + 1 < w && y + 1 < h ==> share_sum(diffusion_spec(x, y, w, h)) == 16,
{
    lemma_grid_index(x, y, w, h);
    assert(h * w == w * h) by (nonlinear_arith);
    if y + 1 < h {
        lemma_grid_index(x, y + 1, w, h);
    }
    let t = diffusion_spec(x, y, w, h);
    let idx = y * w + x;
    let e0 = ((idx + 1) as usize, 7u32);
    let e1 = ((idx + w - 1) as usize, 3u32);
    let e2 = ((idx + w) as usize, 5u32);
    let e3 = ((idx + w + 1) as usize, 1u32);
    reveal_with_fuel(share_sum, 5);
    if y + 1 < h {
        if x > 0 && x + 1 < w {
            assert(t =~= seq![e0, e1, e2, e3]);
            assert(seq![e0, e1, e2, e3].drop_last() =~= seq![e0, e1, e2]);
            assert(seq![e0, e1, e2].drop_last() =~= seq![e0, e1]);
            assert(seq![e0, e1].drop_last() =~= seq![e0]);
            assert(seq![e0].drop_last() =~= Seq::<(usize, u32)>::empty());
        } else if x > 0 {
            assert(t =~= seq![e1, e2]);
            assert(seq![e1, e2].drop_last() =~= seq![e1]);
            assert(seq![e1].drop_last() =~= Seq::<(usize, u32)>::empty());
        } else if x + 1 < w {
            assert(t =~= seq![e0, e2, e3]);
            assert(seq![e0, e2, e3].drop_last() =~= seq![e0, e2]);
            assert(seq![e0, e2].drop_last() =~= seq![e0]);
            assert(seq![e0].drop_last() =~= Seq::<(usize, u32)>::empty());
        } else {
            assert(t =~= seq![e2]);
            assert(seq![e2].drop_last() =~= Seq::<(usize, u32)>::empty());
        }
    } else {
        if x + 1 < w {
            assert(t =~= seq![e0]);
            assert(seq![e0].drop_last() =~= Seq::<(usize, u32)>::empty());
        } else {
            assert(t =~= Seq::<(usize, u32)>::empty());
        }
    }
}

/// The direction class of a strong gradient, from three comparisons of its
/// components: 0 when the vertical component dominates (a horizontal edge),
/// 2 when the horizontal one dominates (a vertical edge), otherwise 3 when
/// both components have the same sign and 1 when they differ.
pub open spec fn direction_class(vertical_dominant: bool, horizontal_dominant: bool, same_sign: bool) -> usize {
    if vertical_dominant {
        0
    } else if horizontal_dominant {
        2
    } else if same_sign {
        3
    } else {
        1
    }
}

/// The direction class of a gradient; always one of the four edge glyphs.
pub fn edge_direction(vertical_dominant: bool, horizontal_dominant: bool, same_sign: bool) -> (dir: usize)
    ensures
        dir == direction_class(vertical_dominant, horizontal_dominant, same_sign),
        dir < 4,
        vertical_dominant ==> dir == 0,
        !vertical_dominant && horizontal_dominant ==> dir == 2,
        !vertical_dominant && !horizontal_dominant && same_sign ==> dir == 3,
        !vertical_dominant && !horizontal_dominant && !same_sign ==> dir == 1,
{
    if vertical_dominant {
        0
    } else if horizontal_dominant {
        2
    } else if same_sign {
        3
    } else {
        1
    }
}

/// The nine indices of the 3×3 window centred on `(x, y)` in a raster `w`
/// wide, row by row: entry `3 * r + c` is pixel `(x - 1 + c, y - 1 + r)`.
pub open spec fn window_index(x: int, y: int, w: int, k: int) -> int {
    (y - 1 + k / 3) * w + (x - 1 + k % 3)
}

/// The 3×3 window around an interior pixel `(x, y)`.
pub fn edge_window(x: usize, y: usize, w: usize, h: usize) -> (win: Vec<usize>)
    requires
        1 <= x,
        x + 1 < w,
        1 <= y,
        y + 1 < h,
        w * h <= usize::MAX,
    ensures
        win@.len() == 9,
        forall|k: int| 0 <= k < 9 ==> #[trigger] win@[k] as int == window_index(x as int, y as int, w as int, k),
        forall|k: int| 0 <= k < 9 ==> #[trigger] win@[k] < w * h,
        win@[4] == y * w + x,
{
    proof {
        lemma_grid_index(x as int, y as int + 1, w as int, h as int);
        lemma_grid_index(x as int, y as int, w as int, h as int);
        lemma_grid_index(x as int, y as int - 1, w as int, h as int);
    }
    let base = (y - 1) * w + (x - 1);
    let mut win: Vec<usize> = Vec::new();
    let mut r: usize = 0;
    while r < 3
        invariant
            r <= 3,
            win@.len() == 3 * r,
            base == (y - 1) * w + (x - 1),
            (y - 1) * w + 3 * w <= h * w,
            h * w <= usize::MAX,
            (y as int) * w == (y - 1) * w + w,
            ((y + 1) as int) * w == y * w + w,
            1 <= x,
            x + 1 < w,
            forall|k: int| 0 <= k < 3 * r ==> #[trigger] win@[k] as int == window_index(x as int, y as int, w as int, k),
        decreases 3 - r,
    {
        proof {
            assert((y - 1 + r) * w == (y - 1) * w + r * w) by (nonlinear_arith);
            assert(r * w <= 2 * w) by (nonlinear_arith)
                requires
                    r <= 2,
            ;
        }
        let row = base + r * w;
        win.push(row);
        win.push(row + 1);
        win.push(row + 2);
        proof {
            assert forall|k: int| 3 * r <= k < 3 * r + 3 implies #[trigger] win@[k] as int == window_index(
                x as int,
                y as int,
                w as int,
                k,
            ) by {
                assert(k / 3 == r);
            }
        }
        r = r + 1;
    }
    proof {
        assert forall|k: int| 0 <= k < 9 implies #[trigger] win@[k] < w * h by {
            assert(win@[k] as int == window_index(x as int, y as int, w as int, k));
            assert(k / 3 <= 2);
            assert((y - 1 + k / 3) * w <= (y + 1) * w) by (nonlinear_arith)
                requires
                    k / 3 <= 2,
                    0 <= w,
            ;
        }
        assert(window_index(x as int, y as int, w as int, 4) == y * w + x);
    }
    win
}


/// The edge map after writing the found edges, in order, into a map of `n`
/// pixels that starts with none: an edge `(x, y, dir)` sets pixel
/// `y * w + x` to `dir`.
pub open spec fn placed_edges(found: Seq<(usize, usize, usize)>, w: int, n: nat) -> Seq<Option<usize>>
    decreases found.len(),
{
    if found.len() == 0 {
        Seq::new(n, |i: int| None)
    } else {
        let e = found.last();
        placed_edges(found.drop_last(), w, n).update(e.1 * w + e.0, Some(e.2))
    }
}

/// Writes edges found at interior pixels into an edge map of the whole
/// `w` by `h` raster; pixels without an edge hold none.
pub fn place_edges(w: usize, h: usize, found: &Vec<(usize, usize, usize)>) -> (map: Vec<Option<usize>>)
    requires
        w * h <= usize::MAX,
        forall|k: int|
            0 <= k < found@.len() ==> {
                let e = #[trigger] found@[k];
                1 <= e.0 && e.0 + 1 < w && 1 <= e.1 && e.1 + 1 < h && e.2 < 4
            },
    ensures
        map@ == placed_edges(found@, w as int, (w * h) as nat),
        map@.len() == w * h,
        forall|i: int|
            0 <= i < map@.len() ==> (#[trigger] map@[i] matches Some(d) ==> d < 4 && exists|k: int|
                0 <= k < found@.len() && found@[k].1 * w + found@[k].0 == i && found@[k].2 == d),
        forall|k: int|
            0 <= k < found@.len() && (forall|l: int|
                k < l < found@.len() ==> found@[l].1 * w + found@[l].0 != found@[k].1 * w
                    + found@[k].0) ==> map@[found@[k].1 * w + found@[k].0] == Some(
                #[trigger] found@[k].2,
            ),
{
    let n = w * h;
    let mut map: Vec<Option<usize>> = Vec::new();
    let mut i: usize = 0;
    while i < n
        invariant
            i <= n,
            map@ =~= Seq::new(i as nat, |j: int| None::<usize>),
        decreases n - i,
    {
        map.push(None);
        i = i + 1;
    }
    proof {
        assert(found@.subrange(0, 0) =~= Seq::<(usize, usize, usize)>::empty());
    }
    let mut k: usize = 0;
    while k < found.len()
        invariant
            n == w * h,
            w * h <= usize::MAX,
            k <= found@.len(),
            forall|j: int|
                0 <= j < found@.len() ==> {
                    let e = #[trigger] found@[j];
                    1 <= e.0 && e.0 + 1 < w && 1 <= e.1 && e.1 + 1 < h && e.2 < 4
                },
            map@ == placed_edges(found@.subrange(0, k as int), w as int, n as nat),
            map@.len() == n,
            forall|i: int|
                0 <= i < map@.len() ==> (#[trigger] map@[i] matches Some(d) ==> d < 4 && exists|j: int|
                    0 <= j < k && found@[j].1 * w + found@[j].0 == i && found@[j].2 == d),
            forall|j: int|
                0 <= j < k && (forall|l: int|
                    j < l < k ==> found@[l].1 * w + found@[l].0 != found@[j].1 * w + found@[j].0)
                    ==> map@[found@[j].1 * w + found@[j].0] == Some(#[trigger] found@[j].2),
        decreases found@.len() - k,
    {
        let (x, y, d) = found[k];
        proof {
            assert(found@[k as int] == (x, y, d));
            lemma_grid_index(x as int, y as int, w as int, h as int);
            assert(h * w == w * h) by (nonlinear_arith);
        }
        let idx = y * w + x;
        let ghost prev = map@;
        map.set(idx, Some(d));
        proof {
            let pre = found@.subrange(0, k as int);
            let post = found@.subrange(0, k + 1);
            assert(post.drop_last() =~= pre);
            assert(post.last() == (x, y, d));
            assert forall|i: int| 0 <= i < map@.len() implies (#[trigger] map@[i] matches Some(dd) ==> dd
                < 4 && exists|j: int|
                0 <= j < k + 1 && found@[j].1 * w + found@[j].0 == i && found@[j].2 == dd) by {
                if i == idx {
                    assert(found@[k as int].1 * w + found@[k as int].0 == i);
                } else {
                    assert(map@[i] == prev[i]);
                }
            }
            assert forall|j: int|
                0 <= j < k + 1 && (forall|l: int|
                    j < l < k + 1 ==> found@[l].1 * w + found@[l].0 != found@[j].1 * w + found@[j].0)
                    implies map@[found@[j].1 * w + found@[j].0] == Some(#[trigger] found@[j].2) by {
                if j < k {
                    assert(found@[k as int].1 * w + found@[k as int].0 != found@[j].1 * w + found@[j].0);
                    lemma_grid_index(found@[j].0 as int, found@[j].1 as int, w as int, h as int);
                }
            }
        }
        k = k + 1;
    }
    proof {
        assert(found@.subrange(0, found@.len() as int) =~= found@);
    }
    map
}
} // verus!
