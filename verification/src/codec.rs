//! The per-connection deflate codec: one compressor stream and one
//! decompressor stream, both raw deflate (no zlib header), built from a
//! resolved [`DeflateConfig`].
//!
//! RFC 7692 frames a compressed message as a raw deflate stream cut off at a
//! sync flush: the wire form omits the 4-byte empty-block trailer
//! `00 00 FF FF`, which the receiver restores before inflating the final
//! fragment of a message.
//!
//! The two streams are modelled by what ran through them: the bytes each has
//! consumed and the bytes each has produced since it was created or last
//! reset. The codec's contracts pin their results against those two
//! sequences.

use crate::deflate::{
    fault_of, response_outcome, response_outcome_loop, DeflateConfig, DeflateError,
    NegotiationError,
};
use crate::strutil::str_eq;
use vstd::prelude::*;
use vstd::seq_lib::*;

verus! {

#[verifier::external_type_specification]
#[verifier::external_body]
pub struct ExCompress(flate2::Compress);

#[verifier::external_type_specification]
#[verifier::external_body]
pub struct ExDecompress(flate2::Decompress);

#[verifier::external_type_specification]
#[verifier::external_body]
pub struct ExCompressError(flate2::CompressError);

#[verifier::external_type_specification]
#[verifier::external_body]
pub struct ExDecompressError(flate2::DecompressError);

/// The bytes the compressor stream has consumed since it was created or last
/// reset.
pub uninterp spec fn comp_fed(c: flate2::Compress) -> Seq<u8>;

/// The bytes the compressor stream has produced since it was created or last
/// reset.
pub uninterp spec fn comp_emitted(c: flate2::Compress) -> Seq<u8>;

/// The bytes the decompressor stream has consumed since it was created or
/// last reset.
pub uninterp spec fn decomp_fed(d: flate2::Decompress) -> Seq<u8>;

/// The bytes the decompressor stream has produced since it was created or
/// last reset.
pub uninterp spec fn decomp_emitted(d: flate2::Decompress) -> Seq<u8>;

/// Whether the decompressor stream has never been driven with a finishing
/// flush. Every stream this module builds stays live: it only ever inflates
/// without a flush request.
pub uninterp spec fn decomp_live(d: flate2::Decompress) -> bool;

/// Whether the decompressor stream has reached the end of a final deflate
/// block and handed out all of its output.
pub uninterp spec fn decomp_ended(d: flate2::Decompress) -> bool;

/// The 4-byte empty-block trailer a raw deflate stream emits at the end of a
/// sync flush.
pub open spec fn trailer_seq() -> Seq<u8> {
    seq![0x00u8, 0x00u8, 0xffu8, 0xffu8]
}

/// Whether `s` ends with the 4-byte empty-block trailer `00 00 FF FF`.
pub open spec fn ends_with_trailer(s: Seq<u8>) -> bool {
    &&& s.len() >= 4
    &&& s[s.len() - 4] == 0x00u8
    &&& s[s.len() - 3] == 0x00u8
    &&& s[s.len() - 2] == 0xffu8
    &&& s[s.len() - 1] == 0xffu8
}

/// The status a codec step reports, as a plain value.
enum CodecStatus {
    /// The call succeeded; more input or output may follow.
    Running,
    /// No forward progress was possible with the buffers as handed in.
    Stalled,
    /// The logical end of the stream was reached.
    Ended,
}

/// Relies on `flate2::Compress::new`: a fresh raw-deflate compressor (no
/// zlib header) at the given level has consumed and produced nothing. The
/// backend owes a defined compressor only for levels on the zero to nine
/// scale.
#[verifier::external_body]
fn compressor_new(level: u32) -> (c: flate2::Compress)
    requires
        level <= 9,
    ensures
        comp_fed(c) == Seq::<u8>::empty(),
        comp_emitted(c) == Seq::<u8>::empty(),
{
    flate2::Compress::new(flate2::Compression::new(level), false)
}

/// Relies on `flate2::Decompress::new`: a fresh raw-deflate decompressor (no
/// zlib header) has consumed and produced nothing.
#[verifier::external_body]
fn decompressor_new() -> (d: flate2::Decompress)
    ensures
        decomp_fed(d) == Seq::<u8>::empty(),
        decomp_emitted(d) == Seq::<u8>::empty(),
        decomp_live(d),
{
    flate2::Decompress::new(false)
}

/// Relies on `flate2::Compress::total_in`: the number of bytes consumed
/// since creation or reset.
#[verifier::external_body]
fn compressor_total_in(c: &flate2::Compress) -> (r: u64)
    ensures
        r == comp_fed(*c).len(),
{
    c.total_in()
}

/// Relies on `flate2::Decompress::total_in`: the number of bytes consumed
/// since creation or reset.
#[verifier::external_body]
fn decompressor_total_in(d: &flate2::Decompress) -> (r: u64)
    ensures
        r == decomp_fed(*d).len(),
{
    d.total_in()
}

/// Relies on `flate2::Compress::reset`: equivalent to replacing the
/// compressor with a freshly created one at the same level.
#[verifier::external_body]
fn compressor_reset(c: &mut flate2::Compress)
    ensures
        comp_fed(*final(c)) == Seq::<u8>::empty(),
        comp_emitted(*final(c)) == Seq::<u8>::empty(),
{
    c.reset();
}

/// Relies on `flate2::Decompress::reset` with raw deflate framing kept:
/// equivalent to a freshly created decompressor.
#[verifier::external_body]
fn decompressor_reset(d: &mut flate2::Decompress)
    ensures
        decomp_fed(*final(d)) == Seq::<u8>::empty(),
        decomp_emitted(*final(d)) == Seq::<u8>::empty(),
        decomp_live(*final(d)),
{
    d.reset(false);
}

/// Relies on `flate2::Compress::compress_vec`: compresses from
/// `input[from..]` into the spare capacity of `output`. The stream consumes
/// some prefix of the bytes handed to it and appends to `output` exactly the
/// bytes it produces, in stream order. With `sync` the call asks for all
/// pending bits as a byte-aligned block closed by the empty-block trailer;
/// without it, the stream buffers at will. A raw deflate stream reports the
/// logical stream end only on a finishing flush, which this module never
/// issues.
#[verifier::external_body]
fn compress_step(
    c: &mut flate2::Compress,
    input: &[u8],
    from: usize,
    sync: bool,
    output: &mut Vec<u8>,
) -> (r: Result<CodecStatus, flate2::CompressError>)
    requires
        from <= input@.len(),
    ensures
        comp_fed(*old(c)).is_prefix_of(comp_fed(*final(c))),
        comp_fed(*final(c)).len() - comp_fed(*old(c)).len() <= input@.len() - from,
        comp_fed(*final(c)) == comp_fed(*old(c)) + input@.subrange(
            from as int,
            from + (comp_fed(*final(c)).len() - comp_fed(*old(c)).len()),
        ),
        comp_emitted(*old(c)).is_prefix_of(comp_emitted(*final(c))),
        final(output)@ == old(output)@ + comp_emitted(*final(c)).skip(
            comp_emitted(*old(c)).len() as int,
        ),
{
    let flush = if sync {
        flate2::FlushCompress::Sync
    } else {
        flate2::FlushCompress::None
    };
    match c.compress_vec(&input[from..], output, flush) {
        Ok(flate2::Status::Ok) => Ok(CodecStatus::Running),
        Ok(flate2::Status::BufError) => Ok(CodecStatus::Stalled),
        Ok(flate2::Status::StreamEnd) => Ok(CodecStatus::Ended),
        Err(e) => Err(e),
    }
}

/// Relies on `flate2::Decompress::decompress_vec`: inflates from
/// `input[from..]` into the spare capacity of `output`. The stream consumes
/// some prefix of the bytes handed to it and appends to `output` exactly the
/// bytes it produces, in stream order. On a live stream a no-progress
/// report only happens when the slice handed in was already empty; the
/// logical stream end is reported once a final deflate block has been read
/// and drained.
#[verifier::external_body]
fn decompress_step(
    d: &mut flate2::Decompress,
    input: &[u8],
    from: usize,
    output: &mut Vec<u8>,
) -> (r: Result<CodecStatus, flate2::DecompressError>)
    requires
        from <= input@.len(),
    ensures
        decomp_fed(*old(d)).is_prefix_of(decomp_fed(*final(d))),
        decomp_fed(*final(d)).len() - decomp_fed(*old(d)).len() <= input@.len() - from,
        decomp_fed(*final(d)) == decomp_fed(*old(d)) + input@.subrange(
            from as int,
            from + (decomp_fed(*final(d)).len() - decomp_fed(*old(d)).len()),
        ),
        decomp_emitted(*old(d)).is_prefix_of(decomp_emitted(*final(d))),
        final(output)@ == old(output)@ + decomp_emitted(*final(d)).skip(
            decomp_emitted(*old(d)).len() as int,
        ),
        decomp_live(*old(d)) ==> decomp_live(*final(d)),
        decomp_live(*old(d)) ==> ((r matches Ok(CodecStatus::Stalled)) ==> from == input@.len()),
        r matches Ok(CodecStatus::Ended) ==> decomp_ended(*final(d)),
{
    match d.decompress_vec(&input[from..], output, flate2::FlushDecompress::None) {
        Ok(flate2::Status::Ok) => Ok(CodecStatus::Running),
        Ok(flate2::Status::BufError) => Ok(CodecStatus::Stalled),
        Ok(flate2::Status::StreamEnd) => Ok(CodecStatus::Ended),
        Err(e) => Err(e),
    }
}

/// Checks for the 4-byte empty-block trailer at the end of the buffer.
fn has_trailer(v: &Vec<u8>) -> (r: bool)
    ensures
        r == ends_with_trailer(v@),
{
    let n = v.len();
    n >= 4 && v[n - 4] == 0x00 && v[n - 3] == 0x00 && v[n - 2] == 0xff && v[n - 1] == 0xff
}

/// Context for the resolved per-message deflate extension: the resolved
/// configuration and the two persistent codec streams of a connection.
#[derive(Debug)]
pub struct DeflateContext {
    config: DeflateConfig,
    compressor: flate2::Compress,
    decompressor: flate2::Decompress,
    /// A decompressor reset owed from the last final fragment, applied just
    /// before the next fragment is fed — the first moment it can matter.
    pending_reset: bool,
}

impl DeflateContext {
    /// The configuration this codec was resolved with.
    pub closed spec fn spec_config(&self) -> DeflateConfig {
        self.config
    }

    /// The compressor stream.
    pub closed spec fn spec_compressor(&self) -> flate2::Compress {
        self.compressor
    }

    /// The decompressor stream.
    pub closed spec fn spec_decompressor(&self) -> flate2::Decompress {
        self.decompressor
    }

    /// Whether a decompressor reset is owed before the next fragment.
    pub closed spec fn spec_pending_reset(&self) -> bool {
        self.pending_reset
    }

    /// Builds the codec for a resolved configuration: a fresh raw-deflate
    /// compressor at the configured level and a fresh raw-deflate
    /// decompressor.
    pub fn from_config(config: DeflateConfig) -> (r: Self)
        requires
            config.valid(),
        ensures
            r.spec_config() == config,
            comp_fed(r.spec_compressor()) == Seq::<u8>::empty(),
            comp_emitted(r.spec_compressor()) == Seq::<u8>::empty(),
            decomp_fed(r.spec_decompressor()) == Seq::<u8>::empty(),
            decomp_emitted(r.spec_decompressor()) == Seq::<u8>::empty(),
            decomp_live(r.spec_decompressor()),
            !r.spec_pending_reset(),
    {
        DeflateContext {
            config,
            compressor: compressor_new(config.compression),
            decompressor: decompressor_new(),
            pending_reset: false,
        }
    }

    /// Create a new context from the given extension parameters of a
    /// negotiation response.
    ///
    /// This is the offerer's verification path: any violation fails the
    /// connection rather than declining the extension. The resolved
    /// configuration keeps the caller's compression level, records a peer
    /// `server_no_context_takeover` as a local decompressor-reset
    /// obligation, and agrees to reset its own compressor when the caller
    /// already agreed or the response demands it. On success both streams
    /// are fresh.
    pub fn new(config: DeflateConfig, params: Vec<(&str, Option<&str>)>) -> (r: Result<
        Self,
        DeflateError,
    >)
        requires
            config.valid(),
        ensures
            match response_outcome(config.accept_no_context_takeover, params.deep_view()) {
                Ok(flags) => r matches Ok(ctx) && ctx.spec_config() == (DeflateConfig {
                    compression: config.compression,
                    request_no_context_takeover: flags.0,
                    accept_no_context_takeover: flags.1,
                }) && comp_fed(ctx.spec_compressor()) == Seq::<u8>::empty() && comp_emitted(
                    ctx.spec_compressor(),
                ) == Seq::<u8>::empty() && decomp_fed(ctx.spec_decompressor()) == Seq::<
                    u8,
                >::empty() && decomp_emitted(ctx.spec_decompressor()) == Seq::<u8>::empty()
                    && decomp_live(ctx.spec_decompressor()) && !ctx.spec_pending_reset(),
                Err(f) => r matches Err(DeflateError::Negotiation(ne)) && fault_of(ne) == f,
            },
    {
        let ghost psm = params.deep_view();
        let mut request_no_context_takeover = false;
        let mut accept_no_context_takeover = config.accept_no_context_takeover;
        let mut seen_server_no_context_takeover = false;
        let mut seen_client_no_context_takeover = false;

        let n = params.len();
        let mut i: usize = 0;
        proof {
            assert(psm.skip(0) =~= psm);
        }
        while i < n
            invariant
                i <= n,
                n == params@.len(),
                psm == params.deep_view(),
                psm.len() == n,
                response_outcome(config.accept_no_context_takeover, psm) == response_outcome_loop(
                    psm.skip(i as int),
                    seen_server_no_context_takeover,
                    seen_client_no_context_takeover,
                    request_no_context_takeover,
                    accept_no_context_takeover,
                ),
            decreases n - i,
        {
            proof {
                assert(psm.skip(i as int).first() == psm[i as int]);
                assert(psm.skip(i as int).drop_first() =~= psm.skip(i + 1 as int));
            }
            let key = params[i].0;
            if str_eq(key, "server_no_context_takeover") {
                if seen_server_no_context_takeover {
                    return Err(DeflateError::Negotiation(NegotiationError::DuplicateParameter(
                        key.to_owned(),
                    )));
                }
                seen_server_no_context_takeover = true;
                request_no_context_takeover = true;
            } else if str_eq(key, "client_no_context_takeover") {
                if seen_client_no_context_takeover {
                    return Err(DeflateError::Negotiation(NegotiationError::DuplicateParameter(
                        key.to_owned(),
                    )));
                }
                seen_client_no_context_takeover = true;
                accept_no_context_takeover = true;
            } else if str_eq(key, "server_max_window_bits") {
                match params[i].1 {
                    Some(bits) => {
                        if !crate::deflate::is_valid_max_window_bits(bits) {
                            return Err(DeflateError::Negotiation(
                                NegotiationError::InvalidServerMaxWindowBitsValue(bits.to_owned()),
                            ));
                        }
                    },
                    None => {
                        return Err(DeflateError::Negotiation(
                            NegotiationError::MissingServerMaxWindowBitsValue,
                        ));
                    },
                }
                // Window reduction is unsupported, so a well-formed request
                // for it still fails the connection.
                return Err(DeflateError::Negotiation(
                    NegotiationError::ServerMaxWindowBitsNotSupported,
                ));
            } else if str_eq(key, "client_max_window_bits") {
                match params[i].1 {
                    Some(bits) => {
                        if !crate::deflate::is_valid_max_window_bits(bits) {
                            return Err(DeflateError::Negotiation(
                                NegotiationError::InvalidClientMaxWindowBitsValue(bits.to_owned()),
                            ));
                        }
                    },
                    None => {},
                }
                // The offer never asks for this parameter, so a response may
                // not carry it.
                return Err(DeflateError::Negotiation(
                    NegotiationError::UnexpectedClientMaxWindowBits,
                ));
            } else {
                return Err(DeflateError::Negotiation(NegotiationError::UnknownParameter(
                    key.to_owned(),
                )));
            }
            i = i + 1;
        }
        proof {
            assert(psm.skip(n as int) =~= Seq::<(Seq<char>, Option<Seq<char>>)>::empty());
        }
        Ok(Self::from_config(DeflateConfig {
            compression: config.compression,
            request_no_context_takeover,
            accept_no_context_takeover,
        }))
    }

    /// Compress the provided data using the configured compressor.
    ///
    /// When this endpoint agreed to drop its context after each message, the
    /// compressor starts from a fresh sliding window (the reset the previous
    /// message owed). The whole payload is fed, the stream is sync-flushed
    /// until the output closes with the 4-byte empty-block trailer, and that
    /// trailer is stripped from the wire form: on success the stream has
    /// consumed exactly the payload on top of its base, and what it produced
    /// is exactly the returned bytes plus the trailer.
    pub fn compress(&mut self, data: &[u8]) -> (r: Result<Vec<u8>, DeflateError>)
        ensures
            final(self).spec_config() == old(self).spec_config(),
            final(self).spec_decompressor() == old(self).spec_decompressor(),
            final(self).spec_pending_reset() == old(self).spec_pending_reset(),
            r matches Err(e) ==> e is Compress,
            r matches Ok(out) ==> ({
                let base_fed = if old(self).spec_config().accept_no_context_takeover {
                    Seq::<u8>::empty()
                } else {
                    comp_fed(old(self).spec_compressor())
                };
                let base_emitted = if old(self).spec_config().accept_no_context_takeover {
                    Seq::<u8>::empty()
                } else {
                    comp_emitted(old(self).spec_compressor())
                };
                &&& comp_fed(final(self).spec_compressor()) == base_fed + data@
                &&& comp_emitted(final(self).spec_compressor()) == base_emitted + out@
                    + trailer_seq()
            }),
    {
        if self.config.accept_no_context_takeover {
            // The reset the previous message owed under this policy; on a
            // fresh stream it changes nothing.
            compressor_reset(&mut self.compressor);
        }
        let ghost f0 = comp_fed(self.compressor);
        let ghost e0 = comp_emitted(self.compressor);

        let mut output: Vec<u8> = Vec::with_capacity(data.len());
        let before_in = compressor_total_in(&self.compressor);

        // A budget on feed attempts far beyond what a working stream needs:
        // a codec making no progress for this long is treated as failed.
        let mut fuel: usize = if data.len() < usize::MAX - 1024 {
            data.len() + 1024
        } else {
            usize::MAX
        };
        let mut offset: usize = 0;
        while offset < data.len()
            invariant
                self.config == old(self).config,
                self.decompressor == old(self).decompressor,
                self.pending_reset == old(self).pending_reset,
                offset <= data@.len(),
                f0.len() == before_in,
                comp_fed(self.compressor) == f0 + data@.take(offset as int),
                comp_emitted(self.compressor) == e0 + output@,
                e0.is_prefix_of(comp_emitted(self.compressor)),
            decreases fuel,
        {
            if fuel == 0 {
                return Err(DeflateError::Compress(None));
            }
            fuel = fuel - 1;
            let ghost fed_pre = comp_fed(self.compressor);
            let ghost emitted_pre = comp_emitted(self.compressor);
            let ghost out_pre = output@;
            match compress_step(&mut self.compressor, data, offset, false, &mut output) {
                Ok(CodecStatus::Running) => {},
                Ok(CodecStatus::Stalled) => {
                    output.reserve(4096);
                },
                Ok(CodecStatus::Ended) => {
                    // A raw deflate stream only ends on a finishing flush,
                    // which this codec never issues.
                    return Err(DeflateError::Compress(None));
                },
                Err(e) => {
                    return Err(DeflateError::Compress(Some(e)));
                },
            }
            proof {
                let fed_post = comp_fed(self.compressor);
                let consumed = fed_post.len() - fed_pre.len();
                assert(fed_post == fed_pre + data@.subrange(
                    offset as int,
                    offset as int + consumed,
                ));
                assert(data@.take(offset as int) + data@.subrange(
                    offset as int,
                    offset as int + consumed,
                ) =~= data@.take(offset as int + consumed));
                assert(fed_post =~= f0 + data@.take(offset as int + consumed));
                let emitted_post = comp_emitted(self.compressor);
                assert(emitted_pre =~= emitted_post.subrange(0, emitted_pre.len() as int));
                assert(emitted_post =~= emitted_pre + emitted_post.skip(
                    emitted_pre.len() as int,
                ));
                assert(output@ == out_pre + emitted_post.skip(emitted_pre.len() as int));
                assert(comp_emitted(self.compressor) =~= e0 + output@);
            }
            let t = compressor_total_in(&self.compressor);
            offset = (t - before_in) as usize;
        }
        proof {
            assert(data@.take(data@.len() as int) =~= data@);
        }

        let mut flush_fuel: usize = if data.len() < usize::MAX - 65536 {
            data.len() + 65536
        } else {
            usize::MAX
        };
        while !has_trailer(&output)
            invariant
                self.config == old(self).config,
                self.decompressor == old(self).decompressor,
                self.pending_reset == old(self).pending_reset,
                comp_fed(self.compressor) == f0 + data@,
                comp_emitted(self.compressor) == e0 + output@,
                e0.is_prefix_of(comp_emitted(self.compressor)),
            decreases flush_fuel,
        {
            if flush_fuel == 0 {
                return Err(DeflateError::Compress(None));
            }
            flush_fuel = flush_fuel - 1;
            output.reserve(5);
            let ghost fed_pre = comp_fed(self.compressor);
            let ghost emitted_pre = comp_emitted(self.compressor);
            let ghost out_pre = output@;
            match compress_step(&mut self.compressor, data, data.len(), true, &mut output) {
                Ok(CodecStatus::Running) => {},
                Ok(CodecStatus::Stalled) => {},
                Ok(CodecStatus::Ended) => {
                    // Unreachable for the flushes this codec issues, as
                    // above.
                    return Err(DeflateError::Compress(None));
                },
                Err(e) => {
                    return Err(DeflateError::Compress(Some(e)));
                },
            }
            proof {
                let fed_post = comp_fed(self.compressor);
                assert(fed_post.len() == fed_pre.len());
                assert(fed_pre =~= fed_post.subrange(0, fed_pre.len() as int));
                assert(comp_fed(self.compressor) =~= fed_pre);
                let emitted_post = comp_emitted(self.compressor);
                assert(emitted_pre =~= emitted_post.subrange(0, emitted_pre.len() as int));
                assert(emitted_post =~= emitted_pre + emitted_post.skip(
                    emitted_pre.len() as int,
                ));
                assert(output@ == out_pre + emitted_post.skip(emitted_pre.len() as int));
                assert(comp_emitted(self.compressor) =~= e0 + output@);
            }
        }

        let cut = output.len() - 4;
        let ghost full = output@;
        output.truncate(cut);
        proof {
            assert(full.skip(cut as int) =~= trailer_seq());
            assert(full =~= full.take(cut as int) + full.skip(cut as int));
            assert(comp_emitted(self.compressor) =~= e0 + output@ + trailer_seq());
        }
        Ok(output)
    }

    /// Decompress the provided data using the configured decompressor.
    ///
    /// A reset owed by the previous message (its final fragment, under a
    /// peer that committed to drop its context) is applied first. For the
    /// final fragment of a message the 4-byte empty-block trailer is
    /// restored before feeding. On success the stream has consumed some
    /// prefix of the payload (with the trailer when final) on top of its
    /// base, what it produced beyond its base is exactly the returned bytes,
    /// and a reset is owed again exactly for a final fragment under that
    /// commitment. Non-final fragments carry the sliding-window state
    /// forward.
    pub fn decompress(&mut self, data: Vec<u8>, is_final: bool) -> (r: Result<
        Vec<u8>,
        DeflateError,
    >)
        ensures
            final(self).spec_config() == old(self).spec_config(),
            final(self).spec_compressor() == old(self).spec_compressor(),
            r matches Err(e) ==> e is Decompress,
            decomp_live(old(self).spec_decompressor()) ==> decomp_live(
                final(self).spec_decompressor(),
            ),
            r matches Ok(out) ==> ({
                let base_fed = if old(self).spec_pending_reset() {
                    Seq::<u8>::empty()
                } else {
                    decomp_fed(old(self).spec_decompressor())
                };
                let base_emitted = if old(self).spec_pending_reset() {
                    Seq::<u8>::empty()
                } else {
                    decomp_emitted(old(self).spec_decompressor())
                };
                let msg = data@ + if is_final {
                    trailer_seq()
                } else {
                    Seq::<u8>::empty()
                };
                let taken = decomp_fed(final(self).spec_decompressor()).len() - base_fed.len();
                let live0 = old(self).spec_pending_reset() || decomp_live(
                    old(self).spec_decompressor(),
                );
                &&& 0 <= taken <= msg.len()
                &&& decomp_fed(final(self).spec_decompressor()) == base_fed + msg.take(taken)
                &&& decomp_emitted(final(self).spec_decompressor()) == base_emitted + out@
                &&& (live0 ==> taken == msg.len() || decomp_ended(
                    final(self).spec_decompressor(),
                ))
                &&& final(self).spec_pending_reset() == (is_final && old(
                    self,
                ).spec_config().request_no_context_takeover)
            }),
    {
        let ghost live0 = old(self).spec_pending_reset() || decomp_live(
            old(self).spec_decompressor(),
        );
        if self.pending_reset {
            decompressor_reset(&mut self.decompressor);
            self.pending_reset = false;
        }
        let ghost f0 = decomp_fed(self.decompressor);
        let ghost e0 = decomp_emitted(self.decompressor);

        let mut data = data;
        if is_final {
            data.push(0x00);
            data.push(0x00);
            data.push(0xff);
            data.push(0xff);
        }
        let ghost msg = data@;
        let before_in = decompressor_total_in(&self.decompressor);
        let mut output: Vec<u8> = Vec::with_capacity(
            if data.len() <= usize::MAX / 2 {
                2 * data.len()
            } else {
                data.len()
            },
        );

        // Deflate expands at most a little over a thousandfold, so this
        // budget is far beyond what a working stream needs.
        let mut fuel: usize = if data.len() < usize::MAX / 1040 {
            data.len() * 1040 + 1024
        } else {
            usize::MAX
        };
        let dlen = data.len();
        let mut offset: usize = 0;
        let mut done = false;
        while !done
            invariant
                self.config == old(self).config,
                self.compressor == old(self).compressor,
                !self.pending_reset,
                data@ == msg,
                msg.len() == dlen,
                offset <= msg.len(),
                f0.len() == before_in,
                decomp_fed(self.decompressor) == f0 + msg.take(offset as int),
                decomp_emitted(self.decompressor) == e0 + output@,
                e0.is_prefix_of(decomp_emitted(self.decompressor)),
                live0 ==> decomp_live(self.decompressor),
                decomp_live(old(self).spec_decompressor()) ==> decomp_live(self.decompressor),
                live0 && done ==> offset == msg.len() || decomp_ended(self.decompressor),
            decreases fuel,
        {
            if fuel == 0 {
                return Err(DeflateError::Decompress(None));
            }
            fuel = fuel - 1;
            let ghost fed_pre = decomp_fed(self.decompressor);
            let ghost emitted_pre = decomp_emitted(self.decompressor);
            let ghost out_pre = output@;
            match decompress_step(&mut self.decompressor, data.as_slice(), offset, &mut output) {
                Ok(CodecStatus::Running) => {
                    let cur = output.len();
                    output.reserve(
                        if cur <= usize::MAX / 2 {
                            2 * cur
                        } else {
                            cur
                        },
                    );
                },
                Ok(CodecStatus::Stalled) => {
                    // On a live stream this only happens once the whole
                    // input has been consumed.
                    done = true;
                },
                Ok(CodecStatus::Ended) => {
                    done = true;
                },
                Err(e) => {
                    return Err(DeflateError::Decompress(Some(e)));
                },
            }
            proof {
                let fed_post = decomp_fed(self.decompressor);
                let consumed = fed_post.len() - fed_pre.len();
                assert(fed_post == fed_pre + msg.subrange(offset as int, offset as int + consumed));
                assert(msg.take(offset as int) + msg.subrange(
                    offset as int,
                    offset as int + consumed,
                ) =~= msg.take(offset as int + consumed));
                assert(fed_post =~= f0 + msg.take(offset as int + consumed));
                let emitted_post = decomp_emitted(self.decompressor);
                assert(emitted_pre =~= emitted_post.subrange(0, emitted_pre.len() as int));
                assert(emitted_post =~= emitted_pre + emitted_post.skip(
                    emitted_pre.len() as int,
                ));
                assert(output@ == out_pre + emitted_post.skip(emitted_pre.len() as int));
                assert(decomp_emitted(self.decompressor) =~= e0 + output@);
            }
            let t = decompressor_total_in(&self.decompressor);
            offset = (t - before_in) as usize;
        }

        if is_final && self.config.request_no_context_takeover {
            self.pending_reset = true;
        }
        proof {
            assert(decomp_fed(self.decompressor).len() - f0.len() == offset as int);
        }
        Ok(output)
    }
}

} // verus!
