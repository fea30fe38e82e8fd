use vstd::prelude::*;
use vstd::slice::slice_subrange;
use crate::coder::{coded_of, decode_symbols, encode_symbols, symbols_of, EOF_SYMBOL, MAX_SYMBOLS};
use crate::format::{
    header_bytes, header_error, header_of, parse_header, write_header, FormatError, Header,
    lemma_header_round_trip, CHANNELS, HEADER_LEN, VERSION,
};
use crate::models::{get_model, lemma_residuals_len, lemma_round_trip, rebuilt, residuals, Model, ModelKind, PixelGrid};

verus! {

/// The predictor that identifier `id` names, for `id` at most one.
pub open spec fn kind_of(id: u16) -> ModelKind {
    if id == 0 { ModelKind::Left } else { ModelKind::Average }
}

/// The header written for an image of the given size and predictor.
pub open spec fn image_header(width: u32, height: u32, kind: ModelKind) -> Header {
    Header { version: VERSION, height, width, channels: CHANNELS, predictor: kind }
}

/// The compressed file of `img` with predictor `kind`: the header, then the
/// coded stream of the residual bytes and the end-of-stream symbol.
pub open spec fn file_bytes(img: PixelGrid, kind: ModelKind) -> Seq<u8> {
    header_bytes(image_header(img.width, img.height, kind)) + coded_of(
        symbols_of(residuals(kind, img.width as int, img.data@, img.pixel_count())).push(EOF_SYMBOL),
    )
}

/// Compresses `img` with the predictor numbered `model_idx`: the header,
/// then the arithmetic-coded residual bytes.
pub fn compress(img: &PixelGrid, model_idx: u16) -> (r: Result<Vec<u8>, FormatError>)
    requires
        img.wf(),
    ensures
        model_idx > 1 ==> r == Err::<Vec<u8>, FormatError>(FormatError::UnknownPredictor),
        model_idx <= 1 && img.data@.len() >= MAX_SYMBOLS ==> r == Err::<Vec<u8>, FormatError>(
            FormatError::TooLarge,
        ),
        model_idx <= 1 && img.data@.len() < MAX_SYMBOLS ==> (r matches Ok(b) && b@ == file_bytes(
            *img,
            kind_of(model_idx),
        )),
{
    let kind = match get_model(model_idx) {
        Some(k) => k,
        None => {
            return Err(FormatError::UnknownPredictor);
        },
    };
    if img.data.len() >= MAX_SYMBOLS {
        return Err(FormatError::TooLarge);
    }
    let res = kind.encode(img);
    proof {
        lemma_residuals_len(kind, img.width as int, img.data@, img.pixel_count());
    }
    let h = Header {
        version: VERSION,
        height: img.height,
        width: img.width,
        channels: CHANNELS,
        predictor: kind,
    };
    let mut out = write_header(&h);
    let stream = match encode_symbols(&res) {
        Ok(s) => s,
        Err(e) => {
            return Err(e);
        },
    };
    let ghost head = out@;
    let mut i: usize = 0;
    while i < stream.len()
        invariant
            head == header_bytes(h),
            out@ == head + stream@.take(i as int),
            i <= stream@.len(),
        decreases stream@.len() - i,
    {
        out.push(stream[i]);
        proof {
            assert(out@ =~= head + stream@.take(i + 1));
        }
        i = i + 1;
    }
    proof {
        assert(stream@.take(i as int) =~= stream@);
    }
    Ok(out)
}

/// Decompresses a stream written by `compress`.
pub fn decompress(b: &[u8]) -> (r: Result<PixelGrid, FormatError>)
    ensures
        header_error(b@) matches Some(e) ==> r == Err::<PixelGrid, FormatError>(e),
        header_error(b@) is None && 3 * (header_of(b@).width * header_of(b@).height)
            >= MAX_SYMBOLS ==> r == Err::<PixelGrid, FormatError>(FormatError::TooLarge),
        r matches Err(e) ==> header_error(b@) == Some(e) || e == FormatError::TooLarge
            || e == FormatError::Stream || e == FormatError::LengthMismatch,
        forall|res: Seq<u8>|
            header_error(b@) is None && res.len() == 3 * (header_of(b@).width * header_of(b@).height)
                && res.len() < MAX_SYMBOLS && b@.skip(HEADER_LEN as int) == #[trigger] coded_of(
                symbols_of(res).push(EOF_SYMBOL),
            ) ==> (r matches Ok(g) && g.width == header_of(b@).width && g.height == header_of(
                b@,
            ).height && g.data@ == rebuilt(
                header_of(b@).predictor,
                header_of(b@).width as int,
                res,
                g.pixel_count(),
            )),
        r matches Ok(g) ==> {
            let h = header_of(b@);
            &&& header_error(b@) is None
            &&& g.wf()
            &&& g.width == h.width
            &&& g.height == h.height
            &&& exists|res: Seq<u8>|
                res.len() == 3 * (h.width * h.height) && g.data@ == #[trigger] rebuilt(
                    h.predictor,
                    h.width as int,
                    res,
                    g.pixel_count(),
                )
        },
{
    let h = match parse_header(b) {
        Ok(h) => h,
        Err(e) => {
            return Err(e);
        },
    };
    proof {
        assert(h.width * h.height <= u64::MAX) by (nonlinear_arith)
            requires
                h.width <= u32::MAX,
                h.height <= u32::MAX,
        ;
    }
    let wh: u64 = h.width as u64 * h.height as u64;
    if wh >= 0x5555_0000 {
        return Err(FormatError::TooLarge);
    }
    let n = (3 * wh) as usize;
    let stream = slice_subrange(b, HEADER_LEN, b.len());
    assert(stream@ == b@.skip(HEADER_LEN as int));
    let res = match decode_symbols(stream, n) {
        Ok(v) => v,
        Err(e) => {
            return Err(e);
        },
    };
    let ghost rs = res@;
    let g = h.predictor.decode(h.width, h.height, res);
    assert(g.data@ == rebuilt(h.predictor, h.width as int, rs, g.pixel_count()));
    assert(rs.len() == 3 * (h.width * h.height));
    assert(exists|res: Seq<u8>|
        res.len() == 3 * (h.width * h.height) && g.data@ == #[trigger] rebuilt(
            h.predictor,
            h.width as int,
            res,
            g.pixel_count(),
        ));
    Ok(g)
}

/// File round trip: decompressing the file that `compress` writes for an
/// image gives that image back. The file's header parses to the image's size
/// and predictor, its coded part is the coded stream of the image's
/// residuals, and rebuilding those residuals gives the image's pixels.
pub proof fn lemma_file_round_trip(img: PixelGrid, kind: ModelKind)
    requires
        img.wf(),
    ensures
        ({
            let b = file_bytes(img, kind);
            let res = residuals(kind, img.width as int, img.data@, img.pixel_count());
            &&& header_error(b) is None
            &&& header_of(b) == image_header(img.width, img.height, kind)
            &&& res.len() == 3 * (img.width * img.height)
            &&& b.skip(HEADER_LEN as int) == coded_of(symbols_of(res).push(EOF_SYMBOL))
            &&& rebuilt(kind, img.width as int, res, img.pixel_count()) == img.data@
        }),
{
    let h = image_header(img.width, img.height, kind);
    let b = file_bytes(img, kind);
    lemma_header_round_trip(h);
    lemma_residuals_len(kind, img.width as int, img.data@, img.pixel_count());
    lemma_round_trip(kind, img);
    let hb = header_bytes(h);
    assert(b.take(HEADER_LEN as int) =~= hb);
    assert(b.take(4) =~= hb.take(4));
    assert(header_error(b) == header_error(hb));
    assert(header_of(b) == header_of(hb));
    assert(b.skip(HEADER_LEN as int) =~= coded_of(
        symbols_of(residuals(kind, img.width as int, img.data@, img.pixel_count())).push(EOF_SYMBOL),
    ));
}

} // verus!
