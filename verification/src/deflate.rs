//! Negotiation of the `permessage-deflate` WebSocket extension (RFC 7692):
//! offer construction, offer acceptance on the responder side, and response
//! verification on the offerer side.

use crate::headers::{ParamModel, ParamsModel, WebSocketExtension};
use crate::strutil::str_eq;
use vstd::prelude::*;

verus! {

/// Errors from `permessage-deflate` extension negotiation.
#[derive(Debug)]
pub enum NegotiationError {
    /// Unknown parameter in a negotiation response.
    UnknownParameter(String),
    /// Duplicate parameter in a negotiation response.
    DuplicateParameter(String),
    /// Received `client_max_window_bits` in a negotiation response for an offer without it.
    UnexpectedClientMaxWindowBits,
    /// Received unsupported `server_max_window_bits` in a negotiation response.
    ServerMaxWindowBitsNotSupported,
    /// Invalid `client_max_window_bits` value in a negotiation response.
    InvalidClientMaxWindowBitsValue(String),
    /// Invalid `server_max_window_bits` value in a negotiation response.
    InvalidServerMaxWindowBitsValue(String),
    /// Missing `server_max_window_bits` value in a negotiation response.
    MissingServerMaxWindowBitsValue,
}

/// Errors from the `permessage-deflate` extension.
///
/// The codec variants carry the underlying codec's own error where one
/// exists; a stream that stopped making progress within the codec's attempt
/// budget fails without one.
#[derive(Debug)]
pub enum DeflateError {
    /// Compress failed.
    Compress(Option<flate2::CompressError>),
    /// Decompress failed.
    Decompress(Option<flate2::DecompressError>),
    /// Extension negotiation failed.
    Negotiation(NegotiationError),
}

/// The image of a [`NegotiationError`] at the specification level, with the
/// offending strings as character sequences.
pub enum NegotiationFault {
    UnknownParameter(Seq<char>),
    DuplicateParameter(Seq<char>),
    UnexpectedClientMaxWindowBits,
    ServerMaxWindowBitsNotSupported,
    InvalidClientMaxWindowBitsValue(Seq<char>),
    InvalidServerMaxWindowBitsValue(Seq<char>),
    MissingServerMaxWindowBitsValue,
}

/// Maps a negotiation error to its specification-level image.
pub open spec fn fault_of(e: NegotiationError) -> NegotiationFault {
    match e {
        NegotiationError::UnknownParameter(s) => NegotiationFault::UnknownParameter(s@),
        NegotiationError::DuplicateParameter(s) => NegotiationFault::DuplicateParameter(s@),
        NegotiationError::UnexpectedClientMaxWindowBits => NegotiationFault::UnexpectedClientMaxWindowBits,
        NegotiationError::ServerMaxWindowBitsNotSupported => NegotiationFault::ServerMaxWindowBitsNotSupported,
        NegotiationError::InvalidClientMaxWindowBitsValue(s) => NegotiationFault::InvalidClientMaxWindowBitsValue(
            s@,
        ),
        NegotiationError::InvalidServerMaxWindowBitsValue(s) => NegotiationFault::InvalidServerMaxWindowBitsValue(
            s@,
        ),
        NegotiationError::MissingServerMaxWindowBitsValue => NegotiationFault::MissingServerMaxWindowBitsValue,
    }
}

/// Configuration for the per-message deflate extension.
#[derive(Clone, Copy, Debug, PartialEq, Eq, Structural)]
pub struct DeflateConfig {
    /// The compression level to use for the deflate algorithm, on the usual
    /// zero to nine scale.
    pub compression: u32,
    /// Indicates whether to ask the other endpoint to reset the sliding window
    /// for each message.
    pub request_no_context_takeover: bool,
    /// Indicates whether this endpoint will agree to reset the sliding window
    /// for each message it compresses.
    pub accept_no_context_takeover: bool,
}

impl DeflateConfig {
    /// A well-formed configuration names a compression level on the zlib
    /// scale of zero to nine.
    pub open spec fn valid(&self) -> bool {
        self.compression <= 9
    }
}

impl Default for DeflateConfig {
    /// The default policy: default compression level, keep context on both sides.
    fn default() -> (c: Self)
        ensures
            c == (DeflateConfig {
                compression: 6u32,
                request_no_context_takeover: false,
                accept_no_context_takeover: false,
            }),
    {
        DeflateConfig {
            compression: 6,
            request_no_context_takeover: false,
            accept_no_context_takeover: false,
        }
    }
}

/// A valid window-bits value is exactly one of the decimal strings "8"
/// through "15": no sign, no leading zero, no surrounding characters.
pub open spec fn valid_window_bits(s: Seq<char>) -> bool {
    ||| s == "8"@
    ||| s == "9"@
    ||| s == "10"@
    ||| s == "11"@
    ||| s == "12"@
    ||| s == "13"@
    ||| s == "14"@
    ||| s == "15"@
}

/// Checks a `client_max_window_bits` / `server_max_window_bits` value: an
/// integer in range `[8, 15]` without sign or leading zeros.
pub fn is_valid_max_window_bits(bits: &str) -> (r: bool)
    ensures
        r == valid_window_bits(bits@),
{
    str_eq(bits, "8") || str_eq(bits, "9") || str_eq(bits, "10") || str_eq(bits, "11") || str_eq(
        bits,
        "12",
    ) || str_eq(bits, "13") || str_eq(bits, "14") || str_eq(bits, "15")
}

/// One parameter that an offer may carry without being declined: a bare
/// `server_no_context_takeover` or `client_no_context_takeover` (a value, if
/// present, is ignored there), or `client_max_window_bits` with no value or a
/// valid one. Any `server_max_window_bits` and any unknown name decline.
pub open spec fn offer_param_ok(p: ParamModel) -> bool {
    ||| p.0 == "server_no_context_takeover"@
    ||| p.0 == "client_no_context_takeover"@
    ||| (p.0 == "client_max_window_bits"@ && (p.1 is None || valid_window_bits(p.1->0)))
}

/// An offer is acceptable when it names this extension, every parameter is
/// recognized and well formed, and no parameter name repeats.
pub open spec fn acceptable_offer(name: Seq<char>, ps: ParamsModel) -> bool {
    &&& name == "permessage-deflate"@
    &&& forall|i: int| 0 <= i < ps.len() ==> offer_param_ok(#[trigger] ps[i])
    &&& forall|i: int, j: int| 0 <= i < j < ps.len() ==> ps[i].0 != ps[j].0
}

/// The parameters an accepted response echoes back: the context-takeover
/// requests of the offer, in offer order, each as a bare parameter.
pub open spec fn echo_params(ps: ParamsModel) -> ParamsModel
    decreases ps.len(),
{
    if ps.len() == 0 {
        Seq::<ParamModel>::empty()
    } else {
        echo_params(ps.drop_last()) + (if ps.last().0 == "server_no_context_takeover"@ || ps.last().0
            == "client_no_context_takeover"@ {
            seq![(ps.last().0, None::<Seq<char>>)]
        } else {
            Seq::<ParamModel>::empty()
        })
    }
}

/// How often the parameter name `k` occurs in `ps`.
pub open spec fn count_key(ps: ParamsModel, k: Seq<char>) -> int
    decreases ps.len(),
{
    if ps.len() == 0 {
        0
    } else {
        count_key(ps.drop_last(), k) + if ps.last().0 == k {
            1int
        } else {
            0int
        }
    }
}

proof fn lemma_count_key_take_step(ps: ParamsModel, k: Seq<char>, i: int)
    requires
        0 <= i < ps.len(),
    ensures
        count_key(ps.take(i + 1), k) == count_key(ps.take(i), k) + if ps[i].0 == k {
            1int
        } else {
            0int
        },
{
    assert(ps.take(i + 1).drop_last() =~= ps.take(i));
    assert(ps.take(i + 1).last() == ps[i]);
}

proof fn lemma_count_key_pos(ps: ParamsModel, k: Seq<char>)
    requires
        count_key(ps, k) > 0,
    ensures
        exists|i: int| 0 <= i < ps.len() && #[trigger] ps[i].0 == k,
    decreases ps.len(),
{
    if ps.last().0 == k {
        assert(ps[ps.len() - 1].0 == k);
    } else {
        lemma_count_key_pos(ps.drop_last(), k);
        let i = choose|i: int| 0 <= i < ps.drop_last().len() && #[trigger] ps.drop_last()[i].0 == k;
        assert(ps[i].0 == k);
    }
}

proof fn lemma_count_key_at(ps: ParamsModel, k: Seq<char>, i: int)
    requires
        0 <= i < ps.len(),
        ps[i].0 == k,
    ensures
        count_key(ps, k) >= 1,
    decreases ps.len(),
{
    if i == ps.len() - 1 {
        assert(count_key(ps.drop_last(), k) >= 0) by {
            lemma_count_key_nonneg(ps.drop_last(), k);
        }
    } else {
        lemma_count_key_at(ps.drop_last(), k, i);
    }
}

proof fn lemma_count_key_nonneg(ps: ParamsModel, k: Seq<char>)
    ensures
        count_key(ps, k) >= 0,
    decreases ps.len(),
{
    if ps.len() > 0 {
        lemma_count_key_nonneg(ps.drop_last(), k);
    }
}

proof fn lemma_count_key_two(ps: ParamsModel, k: Seq<char>, i: int, j: int)
    requires
        0 <= i < j < ps.len(),
        ps[i].0 == k,
        ps[j].0 == k,
    ensures
        count_key(ps, k) >= 2,
    decreases ps.len(),
{
    if j == ps.len() - 1 {
        lemma_count_key_at(ps.drop_last(), k, i);
    } else {
        lemma_count_key_two(ps.drop_last(), k, i, j);
    }
}

/// The four parameter tokens of RFC 7692 are pairwise distinct strings.
pub proof fn lemma_param_tokens_distinct()
    ensures
        "server_no_context_takeover"@ != "client_no_context_takeover"@,
        "server_no_context_takeover"@ != "server_max_window_bits"@,
        "server_no_context_takeover"@ != "client_max_window_bits"@,
        "client_no_context_takeover"@ != "server_max_window_bits"@,
        "client_no_context_takeover"@ != "client_max_window_bits"@,
        "server_max_window_bits"@ != "client_max_window_bits"@,
{
    reveal_strlit("server_no_context_takeover");
    reveal_strlit("client_no_context_takeover");
    reveal_strlit("server_max_window_bits");
    reveal_strlit("client_max_window_bits");
    assert("server_no_context_takeover"@.len() == 26);
    assert("client_no_context_takeover"@.len() == 26);
    assert("server_max_window_bits"@.len() == 22);
    assert("client_max_window_bits"@.len() == 22);
    assert("server_no_context_takeover"@[0] == 's');
    assert("client_no_context_takeover"@[0] == 'c');
    assert("server_max_window_bits"@[0] == 's');
    assert("client_max_window_bits"@[0] == 'c');
}

/// With every parameter recognized and each recognized name occurring at most
/// once, no parameter name repeats at all.
proof fn lemma_distinct_from_counts(ps: ParamsModel)
    requires
        forall|i: int| 0 <= i < ps.len() ==> offer_param_ok(#[trigger] ps[i]),
        count_key(ps, "server_no_context_takeover"@) <= 1,
        count_key(ps, "client_no_context_takeover"@) <= 1,
        count_key(ps, "client_max_window_bits"@) <= 1,
    ensures
        forall|i: int, j: int| 0 <= i < j < ps.len() ==> ps[i].0 != ps[j].0,
{
    assert forall|i: int, j: int| 0 <= i < j < ps.len() implies ps[i].0 != ps[j].0 by {
        if ps[i].0 == ps[j].0 {
            assert(offer_param_ok(ps[i]));
            lemma_count_key_two(ps, ps[i].0, i, j);
        }
    }
}

impl DeflateConfig {
    /// The name under which this extension is offered and negotiated.
    pub fn name(&self) -> (r: &str)
        ensures
            r@ == "permessage-deflate"@,
    {
        "permessage-deflate"
    }

    /// The parameters of the offer this configuration produces: a bare
    /// `server_no_context_takeover` when the peer is asked to reset, and
    /// nothing else. `client_no_context_takeover` is a response-side token
    /// and is not offered; this endpoint's own willingness to reset shows
    /// only in how it verifies the response and drives its compressor.
    pub open spec fn offer_params_model(&self) -> ParamsModel {
        if self.request_no_context_takeover {
            seq![("server_no_context_takeover"@, None::<Seq<char>>)]
        } else {
            Seq::<ParamModel>::empty()
        }
    }

    /// Builds the extension record a client offers under this configuration.
    pub fn to_offer(&self) -> (r: WebSocketExtension)
        ensures
            r.name_model() == "permessage-deflate"@,
            r.params_model() == self.offer_params_model(),
    {
        let mut params: Vec<(String, Option<String>)> = Vec::new();
        if self.request_no_context_takeover {
            params.push((String::from_str("server_no_context_takeover"), None));
        }
        let r = WebSocketExtension { name: String::from_str("permessage-deflate"), params };
        proof {
            assert(r.params_model() =~= self.offer_params_model());
        }
        r
    }

    /// Decides an extension negotiation offer on the responder side.
    ///
    /// Returns the response record when the offer is acceptable and `None`
    /// (decline: the extension is simply omitted) otherwise. The response
    /// echoes the offer's context-takeover requests and nothing else;
    /// `client_max_window_bits` is accepted and dropped, since the full
    /// window is always used.
    pub fn accept_offer(&self, offer: &WebSocketExtension) -> (r: Option<WebSocketExtension>)
        ensures
            r is Some <==> acceptable_offer(offer.name_model(), offer.params_model()),
            r is Some ==> r->0.name_model() == "permessage-deflate"@ && r->0.params_model()
                == echo_params(offer.params_model()),
    {
        let ghost ps = offer.params_model();
        if !str_eq(self.name(), offer.name.as_str()) {
            return None;
        }
        let mut params: Vec<(String, Option<String>)> = Vec::new();
        let mut seen_server_no_context_takeover = false;
        let mut seen_client_no_context_takeover = false;
        let mut seen_client_max_window_bits = false;

        let n = offer.params.len();
        let mut i: usize = 0;
        while i < n
            invariant
                i <= n,
                n == offer.params@.len(),
                ps == offer.params_model(),
                forall|k: int| 0 <= k < i ==> offer_param_ok(#[trigger] ps[k]),
                count_key(ps.take(i as int), "server_no_context_takeover"@)
                    == if seen_server_no_context_takeover {
                    1int
                } else {
                    0int
                },
                count_key(ps.take(i as int), "client_no_context_takeover"@)
                    == if seen_client_no_context_takeover {
                    1int
                } else {
                    0int
                },
                count_key(ps.take(i as int), "client_max_window_bits"@)
                    == if seen_client_max_window_bits {
                    1int
                } else {
                    0int
                },
                params.deep_view() =~= echo_params(ps.take(i as int)),
            decreases n - i,
        {
            proof {
                lemma_param_tokens_distinct();
                lemma_count_key_take_step(ps, "server_no_context_takeover"@, i as int);
                lemma_count_key_take_step(ps, "client_no_context_takeover"@, i as int);
                lemma_count_key_take_step(ps, "client_max_window_bits"@, i as int);
                assert(ps.take(i + 1 as int).drop_last() =~= ps.take(i as int));
                assert(ps.take(i + 1 as int).last() == ps[i as int]);
            }
            let key = offer.params[i].0.as_str();
            if str_eq(key, "server_no_context_takeover") {
                if seen_server_no_context_takeover {
                    proof {
                        lemma_count_key_pos(ps.take(i as int), "server_no_context_takeover"@);
                        let j = choose|j: int|
                            0 <= j < i && #[trigger] ps.take(i as int)[j].0
                                == "server_no_context_takeover"@;
                        assert(ps[j].0 == ps[i as int].0);
                    }
                    return None;
                }
                seen_server_no_context_takeover = true;
                params.push((String::from_str("server_no_context_takeover"), None));
            } else if str_eq(key, "client_no_context_takeover") {
                if seen_client_no_context_takeover {
                    proof {
                        lemma_count_key_pos(ps.take(i as int), "client_no_context_takeover"@);
                        let j = choose|j: int|
                            0 <= j < i && #[trigger] ps.take(i as int)[j].0
                                == "client_no_context_takeover"@;
                        assert(ps[j].0 == ps[i as int].0);
                    }
                    return None;
                }
                seen_client_no_context_takeover = true;
                params.push((String::from_str("client_no_context_takeover"), None));
            } else if str_eq(key, "server_max_window_bits") {
                // Window reduction is unsupported: any appearance declines,
                // whatever its value.
                return None;
            } else if str_eq(key, "client_max_window_bits") {
                match &offer.params[i].1 {
                    Some(bits) => {
                        if !is_valid_max_window_bits(bits.as_str()) {
                            return None;
                        }
                    },
                    None => {},
                }
                if seen_client_max_window_bits {
                    proof {
                        lemma_count_key_pos(ps.take(i as int), "client_max_window_bits"@);
                        let j = choose|j: int|
                            0 <= j < i && #[trigger] ps.take(i as int)[j].0
                                == "client_max_window_bits"@;
                        assert(ps[j].0 == ps[i as int].0);
                    }
                    return None;
                }
                seen_client_max_window_bits = true;
            } else {
                assert(!offer_param_ok(ps[i as int]));
                return None;
            }
            i = i + 1;
        }
        proof {
            assert(ps.take(n as int) =~= ps);
            lemma_distinct_from_counts(ps);
        }
        Some(WebSocketExtension { name: String::from_str("permessage-deflate"), params })
    }
}

/// The outcome of checking a negotiation response, one parameter at a time
/// from the front: the two resolved context-takeover flags (peer reset
/// requested, local reset agreed), or the first fault found.
pub open spec fn response_outcome_loop(
    ps: ParamsModel,
    seen_server: bool,
    seen_client: bool,
    request: bool,
    accept: bool,
) -> Result<(bool, bool), NegotiationFault>
    decreases ps.len(),
{
    if ps.len() == 0 {
        Ok((request, accept))
    } else {
        let p = ps.first();
        if p.0 == "server_no_context_takeover"@ {
            if seen_server {
                Err(NegotiationFault::DuplicateParameter(p.0))
            } else {
                response_outcome_loop(ps.drop_first(), true, seen_client, true, accept)
            }
        } else if p.0 == "client_no_context_takeover"@ {
            if seen_client {
                Err(NegotiationFault::DuplicateParameter(p.0))
            } else {
                response_outcome_loop(ps.drop_first(), seen_server, true, request, true)
            }
        } else if p.0 == "server_max_window_bits"@ {
            match p.1 {
                Some(bits) => if !valid_window_bits(bits) {
                    Err(NegotiationFault::InvalidServerMaxWindowBitsValue(bits))
                } else {
                    Err(NegotiationFault::ServerMaxWindowBitsNotSupported)
                },
                None => Err(NegotiationFault::MissingServerMaxWindowBitsValue),
            }
        } else if p.0 == "client_max_window_bits"@ {
            match p.1 {
                Some(bits) => if !valid_window_bits(bits) {
                    Err(NegotiationFault::InvalidClientMaxWindowBitsValue(bits))
                } else {
                    Err(NegotiationFault::UnexpectedClientMaxWindowBits)
                },
                None => Err(NegotiationFault::UnexpectedClientMaxWindowBits),
            }
        } else {
            Err(NegotiationFault::UnknownParameter(p.0))
        }
    }
}

/// The outcome of verifying a negotiation response against an offer made
/// with `accept_no_context_takeover == accept0`: the resolved flags
/// (peer reset requested, local reset agreed), or the first fault.
pub open spec fn response_outcome(accept0: bool, ps: ParamsModel) -> Result<
    (bool, bool),
    NegotiationFault,
> {
    response_outcome_loop(ps, false, false, false, accept0)
}

proof fn lemma_count_key_drop_first(ps: ParamsModel, k: Seq<char>)
    requires
        ps.len() > 0,
    ensures
        count_key(ps, k) == count_key(ps.drop_first(), k) + if ps.first().0 == k {
            1int
        } else {
            0int
        },
    decreases ps.len(),
{
    if ps.len() == 1 {
        assert(ps.drop_first() =~= Seq::<ParamModel>::empty());
        assert(count_key(ps.drop_first(), k) == 0);
        assert(ps.drop_last() =~= Seq::<ParamModel>::empty());
        assert(count_key(ps.drop_last(), k) == 0);
    } else {
        lemma_count_key_drop_first(ps.drop_last(), k);
        assert(ps.drop_last().drop_first() =~= ps.drop_first().drop_last());
        assert(ps.drop_first().last() == ps.last());
        assert(ps.drop_last().first() == ps.first());
        assert(count_key(ps.drop_first(), k) == count_key(ps.drop_first().drop_last(), k)
            + if ps.drop_first().last().0 == k {
            1int
        } else {
            0int
        });
        assert(count_key(ps, k) == count_key(ps.drop_last(), k) + if ps.last().0 == k {
            1int
        } else {
            0int
        });
        assert(count_key(ps.drop_first().drop_last(), k) == count_key(
            ps.drop_last().drop_first(),
            k,
        ));
    }
}

proof fn lemma_count_key_two_exists(ps: ParamsModel, k: Seq<char>)
    requires
        count_key(ps, k) >= 2,
    ensures
        exists|i: int, j: int|
            0 <= i < j < ps.len() && #[trigger] ps[i].0 == k && #[trigger] ps[j].0 == k,
    decreases ps.len(),
{
    lemma_count_key_nonneg(ps.drop_last(), k);
    if ps.last().0 == k {
        lemma_count_key_pos(ps.drop_last(), k);
        let i = choose|i: int| 0 <= i < ps.drop_last().len() && #[trigger] ps.drop_last()[i].0 == k;
        assert(ps[i].0 == k && ps[ps.len() - 1].0 == k);
    } else {
        lemma_count_key_two_exists(ps.drop_last(), k);
        let (i, j) = choose|i: int, j: int|
            0 <= i < j < ps.drop_last().len() && #[trigger] ps.drop_last()[i].0 == k
                && #[trigger] ps.drop_last()[j].0 == k;
        assert(ps[i].0 == k && ps[j].0 == k);
    }
}

/// Every echoed parameter is a bare context-takeover token, and each token
/// occurs in the echo exactly as often as in the offer.
proof fn lemma_echo_params_shape(ps: ParamsModel)
    ensures
        forall|k: int|
            0 <= k < echo_params(ps).len() ==> (#[trigger] echo_params(ps)[k]).1 is None && (
            echo_params(ps)[k].0 == "server_no_context_takeover"@ || echo_params(ps)[k].0
                == "client_no_context_takeover"@),
        count_key(echo_params(ps), "server_no_context_takeover"@) == count_key(
            ps,
            "server_no_context_takeover"@,
        ),
        count_key(echo_params(ps), "client_no_context_takeover"@) == count_key(
            ps,
            "client_no_context_takeover"@,
        ),
    decreases ps.len(),
{
    if ps.len() > 0 {
        lemma_echo_params_shape(ps.drop_last());
        let e = echo_params(ps);
        let ed = echo_params(ps.drop_last());
        if ps.last().0 == "server_no_context_takeover"@ || ps.last().0
            == "client_no_context_takeover"@ {
            assert(e =~= ed.push((ps.last().0, None::<Seq<char>>)));
            assert(e.drop_last() =~= ed);
        } else {
            assert(e =~= ed);
        }
    }
}

/// Checking a run of bare context-takeover tokens, none repeated and none
/// seen before, succeeds and turns on exactly the flags whose tokens occur.
proof fn lemma_resolve_bare_tokens(
    q: ParamsModel,
    seen_server: bool,
    seen_client: bool,
    request: bool,
    accept: bool,
)
    requires
        forall|k: int|
            0 <= k < q.len() ==> (#[trigger] q[k]).1 is None && (q[k].0
                == "server_no_context_takeover"@ || q[k].0 == "client_no_context_takeover"@),
        count_key(q, "server_no_context_takeover"@) <= 1,
        count_key(q, "client_no_context_takeover"@) <= 1,
        seen_server ==> count_key(q, "server_no_context_takeover"@) == 0,
        seen_client ==> count_key(q, "client_no_context_takeover"@) == 0,
    ensures
        response_outcome_loop(q, seen_server, seen_client, request, accept) == Ok::<
            (bool, bool),
            NegotiationFault,
        >(
            (
                request || count_key(q, "server_no_context_takeover"@) >= 1,
                accept || count_key(q, "client_no_context_takeover"@) >= 1,
            ),
        ),
    decreases q.len(),
{
    lemma_param_tokens_distinct();
    lemma_count_key_nonneg(q, "server_no_context_takeover"@);
    lemma_count_key_nonneg(q, "client_no_context_takeover"@);
    if q.len() > 0 {
        lemma_count_key_drop_first(q, "server_no_context_takeover"@);
        lemma_count_key_drop_first(q, "client_no_context_takeover"@);
        lemma_count_key_nonneg(q.drop_first(), "server_no_context_takeover"@);
        lemma_count_key_nonneg(q.drop_first(), "client_no_context_takeover"@);
        if q.first().0 == "server_no_context_takeover"@ {
            if seen_server {
                lemma_count_key_at(q, "server_no_context_takeover"@, 0);
            }
            lemma_resolve_bare_tokens(q.drop_first(), true, seen_client, true, accept);
        } else {
            if seen_client {
                lemma_count_key_at(q, "client_no_context_takeover"@, 0);
            }
            lemma_resolve_bare_tokens(q.drop_first(), seen_server, true, request, true);
        }
    }
}

/// An offer that carries a parameter whose name is none of the four tokens
/// of RFC 7692 is never acceptable: `accept_offer` always declines it.
pub proof fn lemma_unknown_parameter_declines(name: Seq<char>, ps: ParamsModel, i: int)
    requires
        0 <= i < ps.len(),
        ps[i].0 != "server_no_context_takeover"@,
        ps[i].0 != "client_no_context_takeover"@,
        ps[i].0 != "server_max_window_bits"@,
        ps[i].0 != "client_max_window_bits"@,
    ensures
        !acceptable_offer(name, ps),
{
    assert(!offer_param_ok(ps[i]));
}

/// A response that carries `server_max_window_bits` anywhere never verifies.
pub proof fn lemma_server_max_window_bits_never_verifies(accept0: bool, ps: ParamsModel, i: int)
    requires
        0 <= i < ps.len(),
        ps[i].0 == "server_max_window_bits"@,
    ensures
        response_outcome(accept0, ps) is Err,
{
    lemma_outcome_err_with_smwb(ps, i, false, false, false, accept0);
}

proof fn lemma_outcome_err_with_smwb(
    ps: ParamsModel,
    i: int,
    seen_server: bool,
    seen_client: bool,
    request: bool,
    accept: bool,
)
    requires
        0 <= i < ps.len(),
        ps[i].0 == "server_max_window_bits"@,
    ensures
        response_outcome_loop(ps, seen_server, seen_client, request, accept) is Err,
    decreases ps.len(),
{
    lemma_param_tokens_distinct();
    if i > 0 {
        let p = ps.first();
        if p.0 == "server_no_context_takeover"@ && !seen_server {
            lemma_outcome_err_with_smwb(ps.drop_first(), i - 1, true, seen_client, true, accept);
        } else if p.0 == "client_no_context_takeover"@ && !seen_client {
            lemma_outcome_err_with_smwb(ps.drop_first(), i - 1, seen_server, true, request, true);
        }
    }
}

/// When every parameter of a response besides a `server_max_window_bits` at
/// `i` is a context-takeover token, none of them repeated, verification
/// fails on that parameter: with a value, with the invalid-value fault or
/// the unsupported fault; bare, with the missing-value fault.
pub proof fn lemma_server_max_window_bits_fault(accept0: bool, ps: ParamsModel, i: int)
    requires
        0 <= i < ps.len(),
        ps[i].0 == "server_max_window_bits"@,
        forall|k: int|
            0 <= k < i ==> ((#[trigger] ps[k]).0 == "server_no_context_takeover"@ || ps[k].0
                == "client_no_context_takeover"@),
        count_key(ps.take(i), "server_no_context_takeover"@) <= 1,
        count_key(ps.take(i), "client_no_context_takeover"@) <= 1,
    ensures
        ps[i].1 matches Some(bits) ==> if valid_window_bits(bits) {
            response_outcome(accept0, ps) == Err::<(bool, bool), NegotiationFault>(
                NegotiationFault::ServerMaxWindowBitsNotSupported,
            )
        } else {
            response_outcome(accept0, ps) == Err::<(bool, bool), NegotiationFault>(
                NegotiationFault::InvalidServerMaxWindowBitsValue(bits),
            )
        },
        ps[i].1 is None ==> response_outcome(accept0, ps) == Err::<(bool, bool), NegotiationFault>(
            NegotiationFault::MissingServerMaxWindowBitsValue,
        ),
{
    lemma_smwb_fault_loop(ps, i, false, false, false, accept0);
}

proof fn lemma_smwb_fault_loop(
    ps: ParamsModel,
    i: int,
    seen_server: bool,
    seen_client: bool,
    request: bool,
    accept: bool,
)
    requires
        0 <= i < ps.len(),
        ps[i].0 == "server_max_window_bits"@,
        forall|k: int|
            0 <= k < i ==> ((#[trigger] ps[k]).0 == "server_no_context_takeover"@ || ps[k].0
                == "client_no_context_takeover"@),
        count_key(ps.take(i), "server_no_context_takeover"@) <= 1,
        count_key(ps.take(i), "client_no_context_takeover"@) <= 1,
        seen_server ==> count_key(ps.take(i), "server_no_context_takeover"@) == 0,
        seen_client ==> count_key(ps.take(i), "client_no_context_takeover"@) == 0,
    ensures
        response_outcome_loop(ps, seen_server, seen_client, request, accept) == (match ps[i].1 {
            Some(bits) => if valid_window_bits(bits) {
                Err::<(bool, bool), NegotiationFault>(
                    NegotiationFault::ServerMaxWindowBitsNotSupported,
                )
            } else {
                Err::<(bool, bool), NegotiationFault>(
                    NegotiationFault::InvalidServerMaxWindowBitsValue(bits),
                )
            },
            None => Err::<(bool, bool), NegotiationFault>(
                NegotiationFault::MissingServerMaxWindowBitsValue,
            ),
        }),
    decreases ps.len(),
{
    lemma_param_tokens_distinct();
    if i > 0 {
        let p = ps.first();
        let pre = ps.take(i);
        let pre_rest = ps.drop_first().take(i - 1);
        assert(pre.first() == p);
        assert(pre.drop_first() =~= pre_rest);
        lemma_count_key_drop_first(pre, "server_no_context_takeover"@);
        lemma_count_key_drop_first(pre, "client_no_context_takeover"@);
        lemma_count_key_nonneg(pre_rest, "server_no_context_takeover"@);
        lemma_count_key_nonneg(pre_rest, "client_no_context_takeover"@);
        assert(ps.drop_first()[i - 1] == ps[i]);
        if p.0 == "server_no_context_takeover"@ {
            if seen_server {
                lemma_count_key_at(pre, "server_no_context_takeover"@, 0);
            }
            lemma_smwb_fault_loop(ps.drop_first(), i - 1, true, seen_client, true, accept);
        } else {
            if seen_client {
                lemma_count_key_at(pre, "client_no_context_takeover"@, 0);
            }
            lemma_smwb_fault_loop(ps.drop_first(), i - 1, seen_server, true, request, true);
        }
    }
}

/// A duplicated `server_no_context_takeover` in a response always fails
/// verification with the duplicate-parameter fault, whatever other
/// context-takeover tokens the response carries.
pub proof fn lemma_duplicate_parameter_fails(accept0: bool, ps: ParamsModel, i: int, j: int)
    requires
        0 <= i < j < ps.len(),
        ps[i].0 == "server_no_context_takeover"@,
        ps[j].0 == "server_no_context_takeover"@,
        forall|k: int|
            0 <= k < ps.len() ==> ((#[trigger] ps[k]).0 == "server_no_context_takeover"@ || ps[k].0
                == "client_no_context_takeover"@),
    ensures
        response_outcome(accept0, ps) matches Err(NegotiationFault::DuplicateParameter(_)),
{
    lemma_count_key_two(ps, "server_no_context_takeover"@, i, j);
    lemma_count_key_nonneg(ps, "client_no_context_takeover"@);
    lemma_duplicate_token_loop(ps, false, false, false, accept0);
}

proof fn lemma_duplicate_token_loop(
    ps: ParamsModel,
    seen_server: bool,
    seen_client: bool,
    request: bool,
    accept: bool,
)
    requires
        forall|k: int|
            0 <= k < ps.len() ==> ((#[trigger] ps[k]).0 == "server_no_context_takeover"@ || ps[k].0
                == "client_no_context_takeover"@),
        count_key(ps, "server_no_context_takeover"@) + (if seen_server {
            1int
        } else {
            0int
        }) >= 2 || count_key(ps, "client_no_context_takeover"@) + (if seen_client {
            1int
        } else {
            0int
        }) >= 2,
    ensures
        response_outcome_loop(ps, seen_server, seen_client, request, accept) matches Err(
            NegotiationFault::DuplicateParameter(_),
        ),
    decreases ps.len(),
{
    lemma_param_tokens_distinct();
    lemma_count_key_nonneg(ps, "server_no_context_takeover"@);
    lemma_count_key_nonneg(ps, "client_no_context_takeover"@);
    if ps.len() == 0 {
        assert(false);
    } else {
        let p = ps.first();
        lemma_count_key_drop_first(ps, "server_no_context_takeover"@);
        lemma_count_key_drop_first(ps, "client_no_context_takeover"@);
        lemma_count_key_nonneg(ps.drop_first(), "server_no_context_takeover"@);
        lemma_count_key_nonneg(ps.drop_first(), "client_no_context_takeover"@);
        if p.0 == "server_no_context_takeover"@ {
            if !seen_server {
                lemma_duplicate_token_loop(ps.drop_first(), true, seen_client, true, accept);
            }
        } else {
            if !seen_client {
                lemma_duplicate_token_loop(ps.drop_first(), seen_server, true, request, true);
            }
        }
    }
}

/// The responder's accepted response always verifies on the offerer: for any
/// acceptable offer, the echoed parameters resolve without fault. The
/// peer-reset flag records exactly whether the offer carried
/// `server_no_context_takeover`, and the local-reset flag stays on when the
/// offerer already agreed to reset or the offer carried
/// `client_no_context_takeover`.
pub proof fn lemma_accepted_response_verifies(accept0: bool, name: Seq<char>, ps: ParamsModel)
    requires
        acceptable_offer(name, ps),
    ensures
        response_outcome(accept0, echo_params(ps)) == Ok::<(bool, bool), NegotiationFault>(
            (
                count_key(ps, "server_no_context_takeover"@) >= 1,
                accept0 || count_key(ps, "client_no_context_takeover"@) >= 1,
            ),
        ),
{
    lemma_echo_params_shape(ps);
    lemma_count_key_nonneg(ps, "server_no_context_takeover"@);
    lemma_count_key_nonneg(ps, "client_no_context_takeover"@);
    assert(count_key(ps, "server_no_context_takeover"@) <= 1) by {
        if count_key(ps, "server_no_context_takeover"@) >= 2 {
            lemma_count_key_two_exists(ps, "server_no_context_takeover"@);
        }
    }
    assert(count_key(ps, "client_no_context_takeover"@) <= 1) by {
        if count_key(ps, "client_no_context_takeover"@) >= 2 {
            lemma_count_key_two_exists(ps, "client_no_context_takeover"@);
        }
    }
    lemma_resolve_bare_tokens(echo_params(ps), false, false, false, accept0);
}

} // verus!
