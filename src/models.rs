use vstd::prelude::*;
use vstd::arithmetic::div_mod::lemma_fundamental_div_mod_converse;

verus! {

/// Channel difference with unsigned 8-bit wraparound.
pub open spec fn wrap_sub(a: u8, b: u8) -> u8 {
    (if a >= b { a - b } else { a + 256 - b }) as u8
}

/// Channel sum with unsigned 8-bit wraparound.
pub open spec fn wrap_add(a: u8, b: u8) -> u8 {
    (if a + b < 256 { a + b } else { a + b - 256 }) as u8
}

fn sub_u8(a: u8, b: u8) -> (r: u8)
    ensures
        r == wrap_sub(a, b),
{
    if a >= b {
        a - b
    } else {
        (a as u16 + 256 - b as u16) as u8
    }
}

fn add_u8(a: u8, b: u8) -> (r: u8)
    ensures
        r == wrap_add(a, b),
{
    if (a as u16 + b as u16) < 256 {
        a + b
    } else {
        (a as u16 + b as u16 - 256) as u8
    }
}

/// The prediction strategies.
#[derive(Clone, Copy, Debug, PartialEq, Eq, Structural)]
pub enum ModelKind {
    Left,
    Average,
}

/// Predicted value of channel `c` of the pixel with raster index `k` in a
/// grid of width `w`, given the bytes `p` of the `k` pixels before it.
pub open spec fn predict(kind: ModelKind, w: int, k: int, p: Seq<u8>, c: int) -> u8 {
    match kind {
        ModelKind::Left => {
            if k == 0 { 0 } else { p[3 * (k - 1) + c] }
        },
        ModelKind::Average => {
            if k == 0 {
                0
            } else if k % w == 0 {
                p[3 * (k - w) + c]
            } else if k < w {
                p[3 * (k - 1) + c]
            } else {
                ((p[3 * (k - 1) + c] + p[3 * (k - w) + c] + p[3 * (k - w - 1) + c]) / 3) as u8
            }
        },
    }
}

/// The three residual bytes of pixel `k` of the pixel bytes `d`.
pub open spec fn pixel_residual(kind: ModelKind, w: int, d: Seq<u8>, k: int) -> Seq<u8> {
    let p = d.take(3 * k);
    seq![
        wrap_sub(d[3 * k], predict(kind, w, k, p, 0)),
        wrap_sub(d[3 * k + 1], predict(kind, w, k, p, 1)),
        wrap_sub(d[3 * k + 2], predict(kind, w, k, p, 2)),
    ]
}

/// Residual bytes of the first `n` pixels of `d`, in raster order.
pub open spec fn residuals(kind: ModelKind, w: int, d: Seq<u8>, n: nat) -> Seq<u8>
    decreases n,
{
    if n == 0 {
        seq![]
    } else {
        residuals(kind, w, d, (n - 1) as nat) + pixel_residual(kind, w, d, n - 1)
    }
}

/// The three bytes of pixel `k`, rebuilt from the pixels `p` before it and
/// the residual bytes `r`.
pub open spec fn pixel_rebuilt(kind: ModelKind, w: int, p: Seq<u8>, r: Seq<u8>, k: int) -> Seq<u8> {
    seq![
        wrap_add(predict(kind, w, k, p, 0), r[3 * k]),
        wrap_add(predict(kind, w, k, p, 1), r[3 * k + 1]),
        wrap_add(predict(kind, w, k, p, 2), r[3 * k + 2]),
    ]
}

/// Pixel bytes of the first `n` pixels rebuilt from the residual bytes `r`;
/// each prediction reads the pixels already rebuilt.
pub open spec fn rebuilt(kind: ModelKind, w: int, r: Seq<u8>, n: nat) -> Seq<u8>
    decreases n,
{
    if n == 0 {
        seq![]
    } else {
        let p = rebuilt(kind, w, r, (n - 1) as nat);
        p + pixel_rebuilt(kind, w, p, r, n - 1)
    }
}

/// An RGB pixel grid: `data` holds three bytes per pixel, row by row.
#[derive(Clone, Debug, PartialEq, Eq)]
pub struct PixelGrid {
    pub width: u32,
    pub height: u32,
    pub data: Vec<u8>,
}

impl PixelGrid {
    /// The byte buffer holds exactly one RGB triple per pixel.
    pub open spec fn wf(&self) -> bool {
        self.data@.len() == 3 * (self.width * self.height)
    }

    pub open spec fn pixel_count(&self) -> nat {
        (self.width * self.height) as nat
    }
}

pub proof fn lemma_residuals_len(kind: ModelKind, w: int, d: Seq<u8>, n: nat)
    ensures
        residuals(kind, w, d, n).len() == 3 * n,
    decreases n,
{
    if n > 0 {
        lemma_residuals_len(kind, w, d, (n - 1) as nat);
    }
}

pub proof fn lemma_rebuilt_len(kind: ModelKind, w: int, r: Seq<u8>, n: nat)
    ensures
        rebuilt(kind, w, r, n).len() == 3 * n,
    decreases n,
{
    if n > 0 {
        lemma_rebuilt_len(kind, w, r, (n - 1) as nat);
    }
}

/// Residual bytes of pixel `k` stand at `3k .. 3k + 3` of every longer
/// residual sequence.
pub proof fn lemma_residual_at(kind: ModelKind, w: int, d: Seq<u8>, n: nat, k: int)
    requires
        0 <= k < n,
    ensures
        residuals(kind, w, d, n)[3 * k] == pixel_residual(kind, w, d, k)[0],
        residuals(kind, w, d, n)[3 * k + 1] == pixel_residual(kind, w, d, k)[1],
        residuals(kind, w, d, n)[3 * k + 2] == pixel_residual(kind, w, d, k)[2],
    decreases n,
{
    lemma_residuals_len(kind, w, d, (n - 1) as nat);
    if k < n - 1 {
        lemma_residual_at(kind, w, d, (n - 1) as nat, k);
    }
}

/// Rebuilding the residuals of `d` gives back the pixels of `d`.
pub proof fn lemma_rebuilt_residuals(kind: ModelKind, w: int, d: Seq<u8>, total: nat, n: nat)
    requires
        n <= total,
        3 * total <= d.len(),
    ensures
        rebuilt(kind, w, residuals(kind, w, d, total), n) == d.take(3 * n as int),
    decreases n,
{
    if n > 0 {
        let k = n - 1;
        let r = residuals(kind, w, d, total);
        lemma_rebuilt_residuals(kind, w, d, total, (n - 1) as nat);
        lemma_residual_at(kind, w, d, total, k);
        let p = rebuilt(kind, w, r, (n - 1) as nat);
        assert(p == d.take(3 * k));
        assert(rebuilt(kind, w, r, n) =~= d.take(3 * n as int));
    }
}

/// Round trip of the residual transform: for every pixel grid and every
/// predictor, rebuilding the residuals yields the grid's bytes exactly.
pub proof fn lemma_round_trip(kind: ModelKind, img: PixelGrid)
    requires
        img.wf(),
    ensures
        rebuilt(
            kind,
            img.width as int,
            residuals(kind, img.width as int, img.data@, img.pixel_count()),
            img.pixel_count(),
        ) == img.data@,
{
    lemma_rebuilt_residuals(kind, img.width as int, img.data@, img.pixel_count(), img.pixel_count());
    assert(img.data@.take(3 * img.pixel_count() as int) =~= img.data@);
}

/// Predicts the previous pixel in raster order, black before the first.
pub struct Left {}

/// Predicts from the neighbours left, above and above-left.
pub struct Average {}

impl Left {
    fn get_predicted(p: &Vec<u8>, k: usize) -> (r: (u8, u8, u8))
        requires
            3 * k <= p@.len(),
            p@.len() <= usize::MAX,
        ensures
            r.0 == predict(ModelKind::Left, 0, k as int, p@.take(3 * k), 0),
            r.1 == predict(ModelKind::Left, 0, k as int, p@.take(3 * k), 1),
            r.2 == predict(ModelKind::Left, 0, k as int, p@.take(3 * k), 2),
    {
        if k == 0 {
            (0, 0, 0)
        } else {
            let i = 3 * (k - 1);
            (p[i], p[i + 1], p[i + 2])
        }
    }
}

impl Average {
    fn get_predicted(p: &Vec<u8>, w: usize, k: usize, x: usize, y: usize) -> (r: (u8, u8, u8))
        requires
            x < w,
            k == y * w + x,
            3 * k <= p@.len(),
            p@.len() <= usize::MAX,
        ensures
            r.0 == predict(ModelKind::Average, w as int, k as int, p@.take(3 * k), 0),
            r.1 == predict(ModelKind::Average, w as int, k as int, p@.take(3 * k), 1),
            r.2 == predict(ModelKind::Average, w as int, k as int, p@.take(3 * k), 2),
    {
        proof {
            lemma_fundamental_div_mod_converse(k as int, w as int, y as int, x as int);
            if y > 0 {
                assert(y * w >= w) by (nonlinear_arith)
                    requires
                        y > 0,
                        w > 0,
                ;
            }
        }
        if k == 0 {
            (0, 0, 0)
        } else if x == 0 {
            let i = 3 * (k - w);
            (p[i], p[i + 1], p[i + 2])
        } else if y == 0 {
            let i = 3 * (k - 1);
            (p[i], p[i + 1], p[i + 2])
        } else {
            let l = 3 * (k - 1);
            let u = 3 * (k - w);
            let ul = u - 3;
            (
                ((p[l] as u16 + p[u] as u16 + p[ul] as u16) / 3) as u8,
                ((p[l + 1] as u16 + p[u + 1] as u16 + p[ul + 1] as u16) / 3) as u8,
                ((p[l + 2] as u16 + p[u + 2] as u16 + p[ul + 2] as u16) / 3) as u8,
            )
        }
    }
}

fn predicted(kind: ModelKind, p: &Vec<u8>, w: usize, k: usize, x: usize, y: usize) -> (r: (u8, u8, u8))
    requires
        x < w,
        k == y * w + x,
        3 * k <= p@.len(),
        p@.len() <= usize::MAX,
    ensures
        r.0 == predict(kind, w as int, k as int, p@.take(3 * k), 0),
        r.1 == predict(kind, w as int, k as int, p@.take(3 * k), 1),
        r.2 == predict(kind, w as int, k as int, p@.take(3 * k), 2),
{
    match kind {
        ModelKind::Left => Left::get_predicted(p, k),
        ModelKind::Average => Average::get_predicted(p, w, k, x, y),
    }
}

/// Moves raster position `(x, y)` with index `k` one pixel on.
proof fn lemma_step(w: int, k: int, x: int, y: int)
    requires
        0 <= x < w,
        0 <= y,
        k == y * w + x,
    ensures
        y <= k,
        x + 1 < w ==> k + 1 == y * w + (x + 1),
        x + 1 == w ==> k + 1 == (y + 1) * w + 0,
{
    assert((y + 1) * w == y * w + w) by (nonlinear_arith);
    assert(y * w >= y) by (nonlinear_arith)
        requires
            w > 0,
            y >= 0,
    ;
}

fn residual_bytes(kind: ModelKind, img: &PixelGrid) -> (r: Vec<u8>)
    requires
        img.wf(),
    ensures
        r@ == residuals(kind, img.width as int, img.data@, img.pixel_count()),
{
    let w = img.width as usize;
    let n = img.data.len() / 3;
    let mut out: Vec<u8> = Vec::new();
    let mut k: usize = 0;
    let mut x: usize = 0;
    let mut y: usize = 0;
    proof {
        if n > 0 {
            assert(w > 0) by (nonlinear_arith)
                requires
                    n == w * img.height,
                    n > 0,
            ;
        }
    }
    while k < n
        invariant
            n == img.pixel_count(),
            3 * n == img.data@.len(),
            img.data@.len() <= usize::MAX,
            w == img.width,
            k <= n,
            y <= k,
            k < n ==> x < w,
            k == y * w + x,
            out@ == residuals(kind, w as int, img.data@, k as nat),
        decreases n - k,
    {
        let pr = predicted(kind, &img.data, w, k, x, y);
        let i = 3 * k;
        out.push(sub_u8(img.data[i], pr.0));
        out.push(sub_u8(img.data[i + 1], pr.1));
        out.push(sub_u8(img.data[i + 2], pr.2));
        proof {
            lemma_residuals_len(kind, w as int, img.data@, k as nat);
            assert(out@ =~= residuals(kind, w as int, img.data@, (k + 1) as nat));
            lemma_step(w as int, k as int, x as int, y as int);
        }
        k = k + 1;
        if x + 1 == w {
            x = 0;
            y = y + 1;
        } else {
            x = x + 1;
        }
    }
    out
}

fn rebuild_grid(kind: ModelKind, w: u32, h: u32, bytes: &Vec<u8>) -> (r: PixelGrid)
    requires
        bytes@.len() == 3 * (w * h),
    ensures
        r.wf(),
        r.width == w,
        r.height == h,
        r.data@ == rebuilt(kind, w as int, bytes@, r.pixel_count()),
{
    let wu = w as usize;
    let n = bytes.len() / 3;
    let mut out: Vec<u8> = Vec::new();
    let mut k: usize = 0;
    let mut x: usize = 0;
    let mut y: usize = 0;
    proof {
        if n > 0 {
            assert(w > 0) by (nonlinear_arith)
                requires
                    n == w * h,
                    n > 0,
            ;
        }
    }
    while k < n
        invariant
            n == w * h,
            3 * n == bytes@.len(),
            bytes@.len() <= usize::MAX,
            wu == w,
            k <= n,
            y <= k,
            k < n ==> x < wu,
            k == y * wu + x,
            out@ == rebuilt(kind, w as int, bytes@, k as nat),
        decreases n - k,
    {
        proof {
            lemma_rebuilt_len(kind, w as int, bytes@, k as nat);
            assert(out@.take(3 * k) =~= out@);
            assert(out@.len() <= bytes@.len());
        }
        let pr = predicted(kind, &out, wu, k, x, y);
        let i = 3 * k;
        let a = add_u8(pr.0, bytes[i]);
        let b = add_u8(pr.1, bytes[i + 1]);
        let c = add_u8(pr.2, bytes[i + 2]);
        out.push(a);
        out.push(b);
        out.push(c);
        proof {
            assert(out@ =~= rebuilt(kind, w as int, bytes@, (k + 1) as nat));
            lemma_step(wu as int, k as int, x as int, y as int);
        }
        k = k + 1;
        if x + 1 == wu {
            x = 0;
            y = y + 1;
        } else {
            x = x + 1;
        }
    }
    proof {
        lemma_rebuilt_len(kind, w as int, bytes@, n as nat);
    }
    PixelGrid { width: w, height: h, data: out }
}

/// A residual transform: turns a pixel grid into residual bytes and back.
pub trait Model {
    spec fn kind(&self) -> ModelKind;

    /// Residual bytes of every pixel, in raster order.
    fn encode(&self, img: &PixelGrid) -> (r: Vec<u8>)
        requires
            img.wf(),
        ensures
            r@ == residuals(self.kind(), img.width as int, img.data@, img.pixel_count()),
    ;

    /// The grid of the given size rebuilt from its residual bytes.
    fn decode(&self, w: u32, h: u32, bytes: Vec<u8>) -> (r: PixelGrid)
        requires
            bytes@.len() == 3 * (w * h),
        ensures
            r.wf(),
            r.width == w,
            r.height == h,
            r.data@ == rebuilt(self.kind(), w as int, bytes@, r.pixel_count()),
    ;
}

impl Model for Left {
    open spec fn kind(&self) -> ModelKind {
        ModelKind::Left
    }

    fn encode(&self, img: &PixelGrid) -> (r: Vec<u8>) {
        residual_bytes(ModelKind::Left, img)
    }

    fn decode(&self, w: u32, h: u32, bytes: Vec<u8>) -> (r: PixelGrid) {
        rebuild_grid(ModelKind::Left, w, h, &bytes)
    }
}

impl Model for Average {
    open spec fn kind(&self) -> ModelKind {
        ModelKind::Average
    }

    fn encode(&self, img: &PixelGrid) -> (r: Vec<u8>) {
        residual_bytes(ModelKind::Average, img)
    }

    fn decode(&self, w: u32, h: u32, bytes: Vec<u8>) -> (r: PixelGrid) {
        rebuild_grid(ModelKind::Average, w, h, &bytes)
    }
}

impl Model for ModelKind {
    open spec fn kind(&self) -> ModelKind {
        *self
    }

    fn encode(&self, img: &PixelGrid) -> (r: Vec<u8>) {
        residual_bytes(*self, img)
    }

    fn decode(&self, w: u32, h: u32, bytes: Vec<u8>) -> (r: PixelGrid) {
        rebuild_grid(*self, w, h, &bytes)
    }
}

/// The predictor with the given identifier: 0 is Left, 1 is Average.
pub fn get_model(m_idx: u16) -> (r: Option<ModelKind>)
    ensures
        m_idx == 0 ==> r == Some(ModelKind::Left),
        m_idx == 1 ==> r == Some(ModelKind::Average),
        m_idx > 1 ==> r is None,
{
    match m_idx {
        0 => Some(ModelKind::Left),
        1 => Some(ModelKind::Average),
        _ => None,
    }
}

} // verus!
