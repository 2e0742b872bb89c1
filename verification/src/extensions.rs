//! WebSocket extension negotiation at the connection level: offering,
//! accepting and verifying the `permessage-deflate` extension, and the
//! per-connection context that results.

use crate::codec::DeflateContext;
use crate::deflate::{
    acceptable_offer, count_key, echo_params, fault_of, lemma_accepted_response_verifies,
    response_outcome, DeflateConfig, DeflateError, NegotiationFault,
};
use crate::headers::{ParamsModel, WebSocketExtension, WebSocketExtensions};
use crate::strutil::str_eq;
use vstd::prelude::*;

verus! {

/// Errors from negotiating the agreed extension set of a connection.
#[derive(Debug)]
pub enum ExtensionsError {
    /// The peer agreed to an extension that was never offered.
    InvalidExtension(String),
    /// The peer agreed to the same extension more than once.
    ExtensionConflict(String),
    /// The deflate extension parameters failed to verify.
    Deflate(DeflateError),
}

/// The image of an [`ExtensionsError`] at the specification level.
pub enum ExtensionsFault {
    InvalidExtension(Seq<char>),
    ExtensionConflict(Seq<char>),
    Deflate(NegotiationFault),
}

/// Configures the websocket extensions to be offered during negotiation.
#[derive(Clone, Copy, Debug)]
pub struct ExtensionsConfig {
    /// Configuration for the permessage-deflate extension.
    pub deflate: Option<DeflateConfig>,
}

impl Default for ExtensionsConfig {
    /// By default no extension is offered.
    fn default() -> (c: Self)
        ensures
            c.deflate is None,
    {
        ExtensionsConfig { deflate: None }
    }
}

/// Contains the websocket extensions that were agreed upon by both sides.
#[derive(Debug)]
pub struct ExtensionsContext {
    /// Resolved context for the permessage-deflate extension.
    pub deflate: Option<DeflateContext>,
}

impl Default for ExtensionsContext {
    /// A context with no extension resolved.
    fn default() -> (c: Self)
        ensures
            c.deflate is None,
    {
        ExtensionsContext { deflate: None }
    }
}

/// The outcome of checking the agreed extension records one at a time from
/// the front, with `resolved` the flags resolved so far: the resolved
/// context-takeover flags if any record was agreed, or the first fault.
pub open spec fn verify_agreed_loop(
    accept0: bool,
    records: Seq<(Seq<char>, ParamsModel)>,
    resolved: Option<(bool, bool)>,
) -> Result<Option<(bool, bool)>, ExtensionsFault>
    decreases records.len(),
{
    if records.len() == 0 {
        Ok(resolved)
    } else {
        let rec = records.first();
        if rec.0 != "permessage-deflate"@ {
            Err(ExtensionsFault::InvalidExtension(rec.0))
        } else if resolved is Some {
            Err(ExtensionsFault::ExtensionConflict(rec.0))
        } else {
            match response_outcome(accept0, rec.1) {
                Ok(flags) => verify_agreed_loop(accept0, records.drop_first(), Some(flags)),
                Err(f) => Err(ExtensionsFault::Deflate(f)),
            }
        }
    }
}

/// The outcome of verifying the agreed extension set against a local deflate
/// configuration.
pub open spec fn verify_agreed(
    accept0: bool,
    records: Seq<(Seq<char>, ParamsModel)>,
) -> Result<Option<(bool, bool)>, ExtensionsFault> {
    verify_agreed_loop(accept0, records, None)
}

/// The index of the first acceptable offer among the records, or `-1` when
/// none is acceptable.
pub open spec fn first_acceptable(records: Seq<(Seq<char>, ParamsModel)>) -> int
    decreases records.len(),
{
    if records.len() == 0 {
        -1
    } else if acceptable_offer(records.first().0, records.first().1) {
        0
    } else {
        let r = first_acceptable(records.drop_first());
        if r < 0 {
            -1
        } else {
            r + 1
        }
    }
}

proof fn lemma_first_acceptable_char(records: Seq<(Seq<char>, ParamsModel)>)
    ensures
        first_acceptable(records) == -1 ==> forall|j: int|
            0 <= j < records.len() ==> !acceptable_offer(
                (#[trigger] records[j]).0,
                records[j].1,
            ),
        first_acceptable(records) >= 0 ==> 0 <= first_acceptable(records) < records.len()
            && acceptable_offer(
            records[first_acceptable(records)].0,
            records[first_acceptable(records)].1,
        ) && forall|j: int|
            0 <= j < first_acceptable(records) ==> !acceptable_offer(
                (#[trigger] records[j]).0,
                records[j].1,
            ),
    decreases records.len(),
{
    if records.len() > 0 {
        lemma_first_acceptable_char(records.drop_first());
        assert forall|j: int| 1 <= j < records.len() implies records.drop_first()[j - 1]
            == records[j] by {}
    }
}

impl ExtensionsConfig {
    /// A well-formed configuration: the deflate policy, if one is set, names
    /// a compression level on the zlib scale of zero to nine.
    pub open spec fn valid(&self) -> bool {
        match self.deflate {
            Some(c) => c.valid(),
            None => true,
        }
    }

    /// Create extensions to be offered to the server.
    pub fn create_offers(&self) -> (r: WebSocketExtensions)
        ensures
            match self.deflate {
                Some(cfg) => r.records_model() == seq![
                    ("permessage-deflate"@, cfg.offer_params_model()),
                ],
                None => r.records_model() == Seq::<(Seq<char>, ParamsModel)>::empty(),
            },
    {
        match &self.deflate {
            Some(cfg) => {
                let offer = cfg.to_offer();
                let r = WebSocketExtensions::new(vec![offer]);
                proof {
                    assert(r.records_model() =~= seq![
                        ("permessage-deflate"@, cfg.offer_params_model()),
                    ]);
                }
                r
            },
            None => {
                let r = WebSocketExtensions::new(Vec::new());
                proof {
                    assert(r.records_model() =~= Seq::<(Seq<char>, ParamsModel)>::empty());
                }
                r
            },
        }
    }

    /// Negotiate the extensions that are offered by the client and return
    /// the extensions accepted by the server together with the context the
    /// server will use when processing data frames.
    ///
    /// The first acceptable offer wins; an unacceptable offer is simply
    /// declined, so this path never fails. The resolved configuration keeps
    /// the configured compression level and records the offer's
    /// context-takeover requests.
    pub fn negotiate_offers(&self, offered_extensions: &WebSocketExtensions) -> (r: Result<
        (WebSocketExtensions, Option<ExtensionsContext>),
        ExtensionsError,
    >)
        requires
            self.valid(),
        ensures
            r matches Ok(pr) && match self.deflate {
                None => pr.0.records_model().len() == 0 && pr.1 is None,
                Some(cfg) => {
                    let records = offered_extensions.records_model();
                    let fa = first_acceptable(records);
                    if fa < 0 {
                        pr.0.records_model().len() == 0 && pr.1 is None
                    } else {
                        &&& pr.0.records_model() == seq![
                            ("permessage-deflate"@, echo_params(records[fa].1)),
                        ]
                        &&& pr.1 matches Some(ctx) && ctx.deflate matches Some(d)
                            && d.spec_config() == (DeflateConfig {
                            compression: cfg.compression,
                            request_no_context_takeover: count_key(
                                records[fa].1,
                                "server_no_context_takeover"@,
                            ) >= 1,
                            accept_no_context_takeover: cfg.accept_no_context_takeover
                                || count_key(records[fa].1, "client_no_context_takeover"@) >= 1,
                        })
                    }
                },
            },
    {
        let ghost records = offered_extensions.records_model();
        match &self.deflate {
            Some(cfg) => {
                let offers = offered_extensions.iter();
                let n = offers.len();
                let mut i: usize = 0;
                while i < n
                    invariant
                        i <= n,
                        n == offers@.len(),
                        offers@ == offered_extensions.0@,
                        records == offered_extensions.records_model(),
                        records.len() == n,
                        self.deflate == Some(*cfg),
                        cfg.valid(),
                        forall|j: int|
                            0 <= j < i ==> !acceptable_offer(
                                (#[trigger] records[j]).0,
                                records[j].1,
                            ),
                    decreases n - i,
                {
                    match cfg.accept_offer(&offers[i]) {
                        Some(accepted_offer) => {
                            proof {
                                lemma_first_acceptable_char(records);
                                assert(acceptable_offer(records[i as int].0, records[i as int].1));
                                assert(first_acceptable(records) == i as int);
                                lemma_accepted_response_verifies(
                                    cfg.accept_no_context_takeover,
                                    records[i as int].0,
                                    records[i as int].1,
                                );
                            }
                            let context = match DeflateContext::new(
                                *cfg,
                                accepted_offer.params(),
                            ) {
                                Ok(ctx) => ctx,
                                Err(e) => {
                                    // The echoed parameters always resolve.
                                    assert(false);
                                    return Err(ExtensionsError::Deflate(e));
                                },
                            };
                            let accepted = WebSocketExtensions::new(vec![accepted_offer]);
                            proof {
                                assert(accepted.records_model() =~= seq![
                                    ("permessage-deflate"@, echo_params(records[i as int].1)),
                                ]);
                            }
                            return Ok(
                                (accepted, Some(ExtensionsContext { deflate: Some(context) })),
                            );
                        },
                        None => {},
                    }
                    i = i + 1;
                }
                proof {
                    lemma_first_acceptable_char(records);
                    if first_acceptable(records) >= 0 {
                        assert(!acceptable_offer(
                            records[first_acceptable(records)].0,
                            records[first_acceptable(records)].1,
                        ));
                    }
                }
                let empty = WebSocketExtensions::new(Vec::new());
                proof {
                    assert(empty.records_model() =~= Seq::<(Seq<char>, ParamsModel)>::empty());
                }
                Ok((empty, None))
            },
            None => {
                let empty = WebSocketExtensions::new(Vec::new());
                proof {
                    assert(empty.records_model() =~= Seq::<(Seq<char>, ParamsModel)>::empty());
                }
                Ok((empty, None))
            },
        }
    }

    /// Verify the extensions the peer agreed to and create the WebSocket
    /// context to be used by the client when processing data frames.
    ///
    /// This is the strict path: an extension that was never offered, a
    /// repeated extension, or parameters that fail response verification all
    /// abort the connection with the first fault found.
    pub fn verify_extensions(&self, agreed_extensions: &WebSocketExtensions) -> (r: Result<
        Option<ExtensionsContext>,
        ExtensionsError,
    >)
        requires
            self.valid(),
        ensures
            match self.deflate {
                None => if agreed_extensions.records_model().len() == 0 {
                    r matches Ok(None)
                } else {
                    r matches Err(ExtensionsError::InvalidExtension(s)) && s@
                        == agreed_extensions.records_model()[0].0
                },
                Some(cfg) => match verify_agreed(
                    cfg.accept_no_context_takeover,
                    agreed_extensions.records_model(),
                ) {
                    Ok(None) => r matches Ok(None),
                    Ok(Some(flags)) => r matches Ok(Some(ctx)) && ctx.deflate matches Some(d)
                        && d.spec_config() == (DeflateConfig {
                        compression: cfg.compression,
                        request_no_context_takeover: flags.0,
                        accept_no_context_takeover: flags.1,
                    }),
                    Err(ExtensionsFault::InvalidExtension(nm)) => r matches Err(
                        ExtensionsError::InvalidExtension(s),
                    ) && s@ == nm,
                    Err(ExtensionsFault::ExtensionConflict(nm)) => r matches Err(
                        ExtensionsError::ExtensionConflict(s),
                    ) && s@ == nm,
                    Err(ExtensionsFault::Deflate(nf)) => r matches Err(
                        ExtensionsError::Deflate(DeflateError::Negotiation(ne)),
                    ) && fault_of(ne) == nf,
                },
            },
    {
        let ghost records = agreed_extensions.records_model();
        match &self.deflate {
            Some(cfg) => {
                let ghost acc0 = cfg.accept_no_context_takeover;
                let mut resolved: Option<DeflateContext> = None;
                let ghost mut gflags: Option<(bool, bool)> = None;

                let exts = agreed_extensions.iter();
                let n = exts.len();
                let mut i: usize = 0;
                proof {
                    assert(records.skip(0) =~= records);
                }
                while i < n
                    invariant
                        i <= n,
                        n == exts@.len(),
                        exts@ == agreed_extensions.0@,
                        records == agreed_extensions.records_model(),
                        records.len() == n,
                        verify_agreed(acc0, records) == verify_agreed_loop(
                            acc0,
                            records.skip(i as int),
                            gflags,
                        ),
                        match gflags {
                            None => resolved is None,
                            Some(flags) => resolved matches Some(d) && d.spec_config()
                                == (DeflateConfig {
                                compression: cfg.compression,
                                request_no_context_takeover: flags.0,
                                accept_no_context_takeover: flags.1,
                            }),
                        },
                        acc0 == cfg.accept_no_context_takeover,
                        self.deflate == Some(*cfg),
                        cfg.valid(),
                    decreases n - i,
                {
                    proof {
                        assert(records.skip(i as int).first() == records[i as int]);
                        assert(records.skip(i as int).drop_first() =~= records.skip(i + 1 as int));
                    }
                    let extension = &exts[i];
                    if !str_eq(extension.name.as_str(), "permessage-deflate") {
                        return Err(ExtensionsError::InvalidExtension(extension.name.clone()));
                    }
                    if resolved.is_some() {
                        return Err(ExtensionsError::ExtensionConflict(extension.name.clone()));
                    }
                    match DeflateContext::new(*cfg, extension.params()) {
                        Ok(ctx) => {
                            resolved = Some(ctx);
                            proof {
                                gflags = Some(
                                    match response_outcome(acc0, records[i as int].1) {
                                        Ok(flags) => flags,
                                        Err(_) => (false, false),
                                    },
                                );
                            }
                        },
                        Err(e) => {
                            return Err(ExtensionsError::Deflate(e));
                        },
                    }
                    i = i + 1;
                }
                proof {
                    assert(records.skip(n as int) =~= Seq::<(Seq<char>, ParamsModel)>::empty());
                }
                match resolved {
                    Some(d) => Ok(Some(ExtensionsContext { deflate: Some(d) })),
                    None => Ok(None),
                }
            },
            None => {
                let exts = agreed_extensions.iter();
                if exts.len() > 0 {
                    // The client asked for nothing, but was handed something.
                    return Err(ExtensionsError::InvalidExtension(exts[0].name.clone()));
                }
                Ok(None)
            },
        }
    }
}

} // verus!
