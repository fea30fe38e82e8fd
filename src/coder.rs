use vstd::prelude::*;
use vstd::seq_lib::to_multiset_build;
use arcode::bitbit::{BitReader, BitWriter, MSB};
use arcode::{ArithmeticDecoder, ArithmeticEncoder, EOFKind, Model as SymbolModel};
use crate::bits::{lemma_padding_is_zero, pack, pad_len, zero_bits};
use vstd::arithmetic::power2::pow2;
use crate::format::FormatError;

verus! {

/// Bit precision of the coder's range registers.
pub const BIT_PRECISION: u64 = 48;

/// Number of symbols: the 256 byte values and the end-of-stream marker.
pub const NUM_SYMBOLS: u32 = 257;

/// The end-of-stream symbol.
pub const EOF_SYMBOL: u32 = 256;

/// Bound on the number of data symbols of one stream. arcode's model never
/// rescales its counts: they only grow, and it keeps their total in a `u32`.
/// Capping the stream length keeps that total below `u32::MAX`, which is what
/// a halving rescale would otherwise guarantee.
pub const MAX_SYMBOLS: usize = 0xFFFF_0000;

#[verifier::external_type_specification]
#[verifier::external_body]
pub struct ExSymbolModel(SymbolModel);

#[verifier::external_type_specification]
#[verifier::external_body]
pub struct ExArithmeticEncoder(ArithmeticEncoder);

#[verifier::external_type_specification]
#[verifier::external_body]
pub struct ExArithmeticDecoder(ArithmeticDecoder);

/// An arcode encoder together with the bitbit writer that collects its
/// output. bitbit's `BitWriter` is generic over `std::io::Write`, which a type
/// declaration cannot bound, so the pair is held here.
#[verifier::external_body]
pub struct EncodeSession {
    enc: ArithmeticEncoder,
    out: BitWriter<Vec<u8>>,
}

/// An arcode decoder together with the bitbit reader over the coded stream.
/// bitbit's `BitReader` is generic over `std::io::Read` and its `Bit` order,
/// which a type declaration cannot bound, so the pair is held here.
#[verifier::external_body]
pub struct DecodeSession<'a> {
    dec: ArithmeticDecoder,
    input: BitReader<&'a [u8], MSB>,
}

#[verifier::external_type_specification]
#[verifier::external_body]
pub struct ExIoError(std::io::Error);

/// The symbols handed to a session's encoder since the session was made.
pub uninterp spec fn sent(s: EncodeSession) -> Seq<u32>;

/// The bits written to a session's writer since it was made, flushed or not.
pub uninterp spec fn sink_bits(s: EncodeSession) -> Seq<bool>;

/// The bytes a decode session reads its bits from.
pub uninterp spec fn stream_of(s: DecodeSession) -> Seq<u8>;

/// The symbols a decode session's decoder has returned since it was made.
pub uninterp spec fn received(s: DecodeSession) -> Seq<u32>;

/// The bits arcode's `ArithmeticEncoder::encode` (precision 48) has written
/// after it was handed `syms` in order, each with a 257-symbol model that
/// started uniform and was updated after every earlier symbol.
pub uninterp spec fn emitted_bits(syms: Seq<u32>) -> Seq<bool>;

/// The bits written once arcode's `ArithmeticEncoder::finish_encode` has
/// followed the encoding of `syms` as in `emitted_bits`.
pub uninterp spec fn finish_bits(syms: Seq<u32>) -> Seq<bool>;

/// The coded stream of the symbols `syms`: the encoder's bits after finish,
/// padded with zero bits to whole bytes.
pub open spec fn coded_of(syms: Seq<u32>) -> Seq<u8> {
    pack(finish_bits(syms) + zero_bits(pad_len(finish_bits(syms).len())))
}

/// A symbol sequence that a decoder can read: data symbols, then the
/// end-of-stream symbol once, at the end.
pub open spec fn is_message(full: Seq<u32>) -> bool {
    &&& full.len() > 0
    &&& full.last() == EOF_SYMBOL
    &&& forall|i: int| 0 <= i < full.len() - 1 ==> full[i] < EOF_SYMBOL
}

/// The per-symbol counts that an arcode symbol model holds.
pub uninterp spec fn model_counts(m: SymbolModel) -> Seq<u32>;

/// The counts of a fresh model: one for every symbol.
pub open spec fn initial_counts() -> Seq<u32> {
    Seq::new(NUM_SYMBOLS as nat, |i: int| 1u32)
}

/// The counts after symbol `s` is seen once more.
pub open spec fn bumped(c: Seq<u32>, s: u32) -> Seq<u32> {
    c.update(s as int, (c[s as int] + 1) as u32)
}

/// The counts of a fresh model after it is updated with `syms` in order.
pub open spec fn counts_after(syms: Seq<u32>) -> Seq<u32>
    decreases syms.len(),
{
    if syms.len() == 0 {
        initial_counts()
    } else {
        bumped(counts_after(syms.drop_last()), syms.last())
    }
}

/// The total of the counts `c`.
pub open spec fn count_sum(c: Seq<u32>) -> int
    decreases c.len(),
{
    if c.len() == 0 {
        0
    } else {
        count_sum(c.drop_last()) + c.last()
    }
}

/// Relies on arcode's `Model::builder` with `num_bits(8)` and
/// `EOFKind::EndAddOne`: 256 counts of one, then one more count of one for
/// the end-of-stream symbol.
#[verifier::external_body]
fn new_model() -> (r: SymbolModel)
    ensures
        model_counts(r) == initial_counts(),
{
    SymbolModel::builder().num_bits(8).eof(EOFKind::EndAddOne).build()
}

/// Relies on arcode's `Model::update_symbol`: adds one to the symbol's count
/// and to the total count, which is the sum of the counts.
#[verifier::external_body]
fn update_model(m: &mut SymbolModel, s: u32)
    requires
        (s as int) < model_counts(*old(m)).len(),
        count_sum(model_counts(*old(m))) < u32::MAX,
    ensures
        model_counts(*final(m)) == bumped(model_counts(*old(m)), s),
{
    m.update_symbol(s)
}

/// Relies on arcode's `ArithmeticEncoder::new` and bitbit's `BitWriter::new`:
/// nothing encoded and no bit written yet.
#[verifier::external_body]
fn new_encode_session() -> (r: EncodeSession)
    ensures
        sent(r) == Seq::<u32>::empty(),
        sink_bits(r) == emitted_bits(sent(r)),
{
    EncodeSession { enc: ArithmeticEncoder::new(BIT_PRECISION), out: BitWriter::new(Vec::new()) }
}

/// Relies on arcode's `ArithmeticEncoder::encode`, which indexes the model's
/// counts by the symbol and writes the bits that the symbol settles. Its only
/// failure is a failed write, and a write to a `Vec` appends and succeeds.
#[verifier::external_body]
fn encode_next(s: &mut EncodeSession, sym: u32, m: &SymbolModel) -> (r: Result<(), std::io::Error>)
    requires
        (sym as int) < model_counts(*m).len(),
        model_counts(*m) == counts_after(sent(*old(s))),
        sink_bits(*old(s)) == emitted_bits(sent(*old(s))),
    ensures
        r is Ok,
        sent(*final(s)) == sent(*old(s)).push(sym),
        sink_bits(*final(s)) == emitted_bits(sent(*final(s))),
{
    s.enc.encode(sym, m, &mut s.out)
}

/// Relies on arcode's `ArithmeticEncoder::finish_encode`: writes the bits
/// that settle the final interval, and cannot fail on a `Vec`.
#[verifier::external_body]
fn finish_session(s: &mut EncodeSession) -> (r: Result<(), std::io::Error>)
    requires
        sink_bits(*old(s)) == emitted_bits(sent(*old(s))),
    ensures
        r is Ok,
        sent(*final(s)) == sent(*old(s)),
        sink_bits(*final(s)) == finish_bits(sent(*old(s))),
{
    s.enc.finish_encode(&mut s.out)
}

/// Relies on bitbit's `BitWriter::pad_to_byte`: fills the last byte with
/// zero bits, and cannot fail on a `Vec`.
#[verifier::external_body]
fn pad_session(s: &mut EncodeSession) -> (r: Result<(), std::io::Error>)
    ensures
        r is Ok,
        sink_bits(*final(s)) == sink_bits(*old(s)) + zero_bits(pad_len(sink_bits(*old(s)).len())),
{
    s.out.pad_to_byte()
}

/// Relies on bitbit's `BitWriter::get_ref`: the bytes that the writer has
/// flushed to its `Vec`, which are all bits written once they fill whole
/// bytes.
#[verifier::external_body]
fn session_bytes(s: &mut EncodeSession) -> (r: Vec<u8>)
    requires
        sink_bits(*old(s)).len() % 8 == 0,
    ensures
        r@ == pack(sink_bits(*old(s))),
{
    s.out.get_ref().clone()
}

/// Relies on arcode's `ArithmeticDecoder::new` and bitbit's `BitReader::new`:
/// nothing decoded yet.
#[verifier::external_body]
fn new_decode_session<'a>(b: &'a [u8]) -> (r: DecodeSession<'a>)
    ensures
        stream_of(r) == b@,
        received(r) == Seq::<u32>::empty(),
{
    DecodeSession { dec: ArithmeticDecoder::new(BIT_PRECISION), input: BitReader::new(b) }
}

/// Relies on arcode's `ArithmeticDecoder::decode`. A symbol it returns has a
/// count in the model, since its search indexes the counts by that symbol.
/// With the model updated as the encoder's was, it returns the symbols that
/// `ArithmeticEncoder::encode` was handed, in order, on the stream written by
/// encoding them, finishing and padding; bits past the end of the stream
/// read as zero.
#[verifier::external_body]
fn decode_next(s: &mut DecodeSession, m: &SymbolModel) -> (r: Result<u32, std::io::Error>)
    requires
        model_counts(*m) == counts_after(received(*old(s))),
        forall|i: int| 0 <= i < received(*old(s)).len() ==> received(*old(s))[i] != EOF_SYMBOL,
    ensures
        stream_of(*final(s)) == stream_of(*old(s)),
        r matches Ok(x) ==> (x as int) < model_counts(*m).len() && received(*final(s)) == received(
            *old(s),
        ).push(x),
        forall|full: Seq<u32>|
            is_message(full) && stream_of(*old(s)) == #[trigger] coded_of(full) && received(
                *old(s),
            ).len() < full.len() && received(*old(s)) == full.take(received(*old(s)).len() as int)
                ==> r == Ok::<u32, std::io::Error>(full[received(*old(s)).len() as int]),
{
    s.dec.decode(m, &mut s.input)
}

/// Byte values as coder symbols.
pub open spec fn symbols_of(b: Seq<u8>) -> Seq<u32> {
    b.map_values(|x: u8| x as u32)
}

proof fn lemma_sum_ones(n: nat)
    ensures
        count_sum(Seq::new(n, |i: int| 1u32)) == n,
    decreases n,
{
    if n > 0 {
        lemma_sum_ones((n - 1) as nat);
        assert(Seq::new(n, |i: int| 1u32).drop_last() =~= Seq::new((n - 1) as nat, |i: int| 1u32));
    }
}

proof fn lemma_sum_update(c: Seq<u32>, s: int, v: u32)
    requires
        0 <= s < c.len(),
    ensures
        count_sum(c.update(s, v)) == count_sum(c) - c[s] + v,
        c[s] <= count_sum(c),
    decreases c.len(),
{
    if s < c.len() - 1 {
        lemma_sum_update(c.drop_last(), s, v);
        assert(c.update(s, v).drop_last() =~= c.drop_last().update(s, v));
    } else {
        assert(c.update(s, v).drop_last() =~= c.drop_last());
    }
    lemma_sum_nonneg(c.drop_last());
}

proof fn lemma_sum_nonneg(c: Seq<u32>)
    ensures
        count_sum(c) >= 0,
    decreases c.len(),
{
    if c.len() > 0 {
        lemma_sum_nonneg(c.drop_last());
    }
}

/// Symbol model synchronisation: the counts of a model that has been updated
/// with a symbol sequence depend on that sequence alone: each symbol's count
/// is one plus its number of occurrences, and the total is the alphabet size
/// plus the sequence length. An encoder and a decoder that have seen the same
/// first `k` symbols therefore hold identical models.
pub proof fn lemma_counts_after(syms: Seq<u32>)
    requires
        forall|i: int| 0 <= i < syms.len() ==> syms[i] < NUM_SYMBOLS,
        syms.len() < MAX_SYMBOLS,
    ensures
        counts_after(syms).len() == NUM_SYMBOLS,
        count_sum(counts_after(syms)) == NUM_SYMBOLS + syms.len(),
        forall|s: u32| s < NUM_SYMBOLS ==> #[trigger] counts_after(syms)[s as int] == 1 + syms.to_multiset().count(s),
    decreases syms.len(),
{
    broadcast use vstd::multiset::group_multiset_axioms;
    if syms.len() == 0 {
        lemma_sum_ones(NUM_SYMBOLS as nat);
        broadcast use vstd::seq_lib::group_to_multiset_ensures;
        assert(forall|s: u32| !syms.contains(s));
    } else {
        let p = syms.drop_last();
        let x = syms.last();
        lemma_counts_after(p);
        let c = counts_after(p);
        lemma_sum_update(c, x as int, (c[x as int] + 1) as u32);
        to_multiset_build(p, x);
        assert(p.push(x) =~= syms);
    }
}


/// Padding of the coded stream: it holds every bit the encoder wrote,
/// including those of finishing, in whole bytes, and the low bits of its last
/// byte that those bits do not reach are zero.
pub proof fn lemma_coded_padding(syms: Seq<u32>)
    ensures
        coded_of(syms).len() * 8 == finish_bits(syms).len() + pad_len(finish_bits(syms).len()),
        coded_of(syms).len() > 0 ==> coded_of(syms).last() as nat % pow2(
            pad_len(finish_bits(syms).len()),
        ) == 0,
{
    lemma_padding_is_zero(finish_bits(syms));
}

/// The bytes `v` followed by the end-of-stream symbol form a message whose
/// data symbols are the bytes.
proof fn lemma_message_of(v: Seq<u8>)
    ensures
        is_message(symbols_of(v).push(EOF_SYMBOL)),
        symbols_of(v).push(EOF_SYMBOL).len() == v.len() + 1,
        forall|j: int| 0 <= j < v.len() ==> symbols_of(v).push(EOF_SYMBOL)[j] == v[j] as u32,
{
}

/// Arithmetic-codes the bytes `data` followed by the end-of-stream symbol,
/// with a model that starts uniform and is updated after every data symbol;
/// the stream is padded with zero bits to whole bytes.
pub fn encode_symbols(data: &Vec<u8>) -> (r: Result<Vec<u8>, FormatError>)
    requires
        data@.len() < MAX_SYMBOLS,
    ensures
        r matches Ok(b) && b@ == coded_of(symbols_of(data@).push(EOF_SYMBOL)),
{
    let mut model = new_model();
    let mut sess = new_encode_session();
    let n = data.len();
    let mut i: usize = 0;
    while i < n
        invariant
            n == data@.len(),
            n < MAX_SYMBOLS,
            i <= n,
            sent(sess) == symbols_of(data@.take(i as int)),
            model_counts(model) == counts_after(sent(sess)),
            sink_bits(sess) == emitted_bits(sent(sess)),
        decreases n - i,
    {
        let s = data[i] as u32;
        proof {
            lemma_counts_after(sent(sess));
        }
        match encode_next(&mut sess, s, &model) {
            Ok(()) => {},
            Err(_) => {
                return Err(FormatError::Stream);
            },
        }
        update_model(&mut model, s);
        proof {
            assert(symbols_of(data@.take(i + 1)) =~= symbols_of(data@.take(i as int)).push(s));
            assert(symbols_of(data@.take(i as int)).push(s).drop_last() =~= symbols_of(
                data@.take(i as int),
            ));
        }
        i = i + 1;
    }
    proof {
        lemma_counts_after(sent(sess));
        assert(data@.take(i as int) =~= data@);
    }
    match encode_next(&mut sess, EOF_SYMBOL, &model) {
        Ok(()) => {},
        Err(_) => {
            return Err(FormatError::Stream);
        },
    }
    match finish_session(&mut sess) {
        Ok(()) => {},
        Err(_) => {
            return Err(FormatError::Stream);
        },
    }
    match pad_session(&mut sess) {
        Ok(()) => {},
        Err(_) => {
            return Err(FormatError::Stream);
        },
    }
    Ok(session_bytes(&mut sess))
}

/// Decodes exactly `n` data bytes and then the end-of-stream symbol from the
/// coded stream, updating a fresh model after every data symbol as the
/// encoder did. An end-of-stream symbol before `n` bytes, or another symbol
/// after them, is a length mismatch. On the coded stream of `n` bytes, the
/// result is those bytes.
pub fn decode_symbols(stream: &[u8], n: usize) -> (r: Result<Vec<u8>, FormatError>)
    requires
        n < MAX_SYMBOLS,
    ensures
        r matches Ok(v) ==> v@.len() == n,
        r matches Err(e) ==> e == FormatError::Stream || e == FormatError::LengthMismatch,
        forall|v: Seq<u8>|
            v.len() == n && stream@ == #[trigger] coded_of(symbols_of(v).push(EOF_SYMBOL))
                ==> (r matches Ok(o) && o@ == v),
{
    let mut model = new_model();
    let mut sess = new_decode_session(stream);
    let mut out: Vec<u8> = Vec::new();
    let mut i: usize = 0;
    while i < n
        invariant
            n < MAX_SYMBOLS,
            i <= n,
            out@.len() == i,
            stream_of(sess) == stream@,
            received(sess) == symbols_of(out@),
            model_counts(model) == counts_after(received(sess)),
            forall|v: Seq<u8>|
                v.len() == n && stream@ == #[trigger] coded_of(symbols_of(v).push(EOF_SYMBOL))
                    ==> out@ == v.take(i as int),
        decreases n - i,
    {
        proof {
            lemma_counts_after(received(sess));
        }
        let ghost before = received(sess);
        let ghost prev = out@;
        let r = decode_next(&mut sess, &model);
        let s = match r {
            Ok(s) => s,
            Err(_) => {
                proof {
                    assert forall|v: Seq<u8>|
                        v.len() == n && stream@ == #[trigger] coded_of(symbols_of(v).push(EOF_SYMBOL))
                            implies false by {
                        lemma_message_of(v);
                        assert(symbols_of(v).push(EOF_SYMBOL).take(i as int) =~= before);
                    }
                }
                return Err(FormatError::Stream);
            },
        };
        if s == EOF_SYMBOL {
            proof {
                assert forall|v: Seq<u8>|
                    v.len() == n && stream@ == #[trigger] coded_of(symbols_of(v).push(EOF_SYMBOL))
                        implies false by {
                    lemma_message_of(v);
                    assert(symbols_of(v).push(EOF_SYMBOL).take(i as int) =~= before);
                }
            }
            return Err(FormatError::LengthMismatch);
        }
        update_model(&mut model, s);
        out.push(s as u8);
        proof {
            assert(symbols_of(out@) =~= symbols_of(prev).push(s));
            assert(symbols_of(prev).push(s).drop_last() =~= symbols_of(prev));
            assert forall|v: Seq<u8>|
                v.len() == n && stream@ == #[trigger] coded_of(symbols_of(v).push(EOF_SYMBOL))
                    implies out@ == v.take(i + 1) by {
                lemma_message_of(v);
                assert(symbols_of(v).push(EOF_SYMBOL).take(i as int) =~= before);
                assert(out@ =~= v.take(i + 1));
            }
        }
        i = i + 1;
    }
    proof {
        lemma_counts_after(received(sess));
    }
    let ghost prev = out@;
    let ghost before = received(sess);
    match decode_next(&mut sess, &model) {
        Ok(s) => {
            if s == EOF_SYMBOL {
                proof {
                    assert forall|v: Seq<u8>|
                        v.len() == n && stream@ == #[trigger] coded_of(symbols_of(v).push(EOF_SYMBOL))
                            implies out@ == v by {
                        assert(v.take(i as int) =~= v);
                    }
                }
                Ok(out)
            } else {
                proof {
                    assert forall|v: Seq<u8>|
                        v.len() == n && stream@ == #[trigger] coded_of(symbols_of(v).push(EOF_SYMBOL))
                            implies false by {
                        lemma_message_of(v);
                        assert(symbols_of(v).push(EOF_SYMBOL).take(n as int) =~= before);
                    }
                }
                Err(FormatError::LengthMismatch)
            }
        },
        Err(_) => {
            proof {
                assert forall|v: Seq<u8>|
                    v.len() == n && stream@ == #[trigger] coded_of(symbols_of(v).push(EOF_SYMBOL))
                        implies false by {
                    lemma_message_of(v);
                    assert(symbols_of(v).push(EOF_SYMBOL).take(n as int) =~= before);
                }
            }
            Err(FormatError::Stream)
        },
    }
}

} // verus!
