//! The `Sec-WebSocket-Extensions` header value: a list of extension records,
//! each an extension name with an ordered list of parameters.

use crate::strutil::{chars_to_string, chars_vec, split_chars, split_on, trim_chars, trimmed};
use vstd::prelude::*;
use vstd::string::StringExecFns;

verus! {

#[verifier::external_type_specification]
#[verifier::external_body]
#[verifier::reject_recursive_types(T)]
pub struct ExHeaderMap<T>(http::HeaderMap<T>);

#[verifier::external_type_specification]
#[verifier::external_body]
pub struct ExHeaderValue(http::HeaderValue);

/// The `Sec-WebSocket-Extensions` values a header map holds, in iteration
/// order: the text of each value that is readable as a string (visible
/// ASCII), `None` for one that is not.
pub uninterp spec fn extension_header_values(h: http::HeaderMap) -> Seq<Option<Seq<char>>>;

/// Whether `http` accepts `s` as a header value; what
/// `HeaderValue::from_str` decides depends on the string alone.
pub uninterp spec fn accepted_header_value(s: Seq<char>) -> bool;

/// Whether a header value reads back as text: every character visible ASCII
/// or a tab. `http` accepts a wider range of bytes than it reads back, so a
/// value that is accepted but not readable is stored and later handed out
/// as unreadable.
pub open spec fn readable_header_value(s: Seq<char>) -> bool {
    forall|i: int| 0 <= i < s.len() ==> (s[i] == '\t' || (32 <= #[trigger] (s[i] as u32) <= 126))
}

/// One parameter at the specification level: a name and an optional value,
/// both as character sequences.
pub type ParamModel = (Seq<char>, Option<Seq<char>>);

/// The ordered parameter list of one extension record, at the specification level.
pub type ParamsModel = Seq<ParamModel>;

/// A WebSocket extension record: the extension name and its parameters, in
/// the order they appear on the wire.
///
/// Parameter names are not required to be unique here; uniqueness is a
/// negotiation-time validation rule, not a structural invariant.
#[derive(Clone, Debug)]
pub struct WebSocketExtension {
    /// The extension name.
    pub name: String,
    /// The parameters: name and optional value, in wire order.
    pub params: Vec<(String, Option<String>)>,
}

/// The `Sec-WebSocket-Extensions` header: the extension records in wire order.
#[derive(Clone, Debug)]
pub struct WebSocketExtensions(pub Vec<WebSocketExtension>);

/// The wire fragment of one parameter: `"; name"` or `"; name=value"`.
pub open spec fn param_fragment(p: ParamModel) -> Seq<char> {
    "; "@ + p.0 + (match p.1 {
        Some(v) => "="@ + v,
        None => Seq::<char>::empty(),
    })
}

/// The protocol string of an extension record: the name followed by the
/// fragment of each parameter, in order.
pub open spec fn proto_model(name: Seq<char>, ps: ParamsModel) -> Seq<char>
    decreases ps.len(),
{
    if ps.len() == 0 {
        name
    } else {
        proto_model(name, ps.drop_last()) + param_fragment(ps.last())
    }
}

impl WebSocketExtension {
    /// The extension name as a character sequence.
    pub open spec fn name_model(&self) -> Seq<char> {
        self.name@
    }

    /// The parameter list at the specification level.
    pub open spec fn params_model(&self) -> ParamsModel {
        self.params.deep_view()
    }

    /// Get the name of the extension.
    pub fn name(&self) -> (r: &str)
        ensures
            r@ == self.name_model(),
    {
        self.name.as_str()
    }

    /// The parameters as borrowed string slices, in wire order.
    pub fn params(&self) -> (r: Vec<(&str, Option<&str>)>)
        ensures
            r.deep_view() == self.params_model(),
    {
        let mut out: Vec<(&str, Option<&str>)> = Vec::new();
        let n = self.params.len();
        let mut i: usize = 0;
        while i < n
            invariant
                i <= n,
                n == self.params@.len(),
                out.deep_view() =~= self.params.deep_view().take(i as int),
            decreases n - i,
        {
            let v: Option<&str> = match &self.params[i].1 {
                Some(s) => Some(s.as_str()),
                None => None,
            };
            out.push((self.params[i].0.as_str(), v));
            proof {
                assert(self.params.deep_view().take(i + 1 as int).drop_last() =~= self
                    .params
                    .deep_view()
                    .take(i as int));
                assert(out.deep_view() =~= self.params.deep_view().take(i + 1 as int));
            }
            i = i + 1;
        }
        proof {
            assert(self.params.deep_view().take(n as int) =~= self.params.deep_view());
        }
        out
    }

    /// Create the protocol string for the `Sec-WebSocket-Extensions` header value.
    pub fn proto(&self) -> (r: String)
        ensures
            r@ == proto_model(self.name_model(), self.params_model()),
    {
        let mut out = String::new();
        out.append(self.name.as_str());
        let n = self.params.len();
        let mut i: usize = 0;
        while i < n
            invariant
                i <= n,
                n == self.params@.len(),
                out@ == proto_model(self.name_model(), self.params_model().take(i as int)),
            decreases n - i,
        {
            out.append("; ");
            out.append(self.params[i].0.as_str());
            match &self.params[i].1 {
                Some(v) => {
                    out.append("=");
                    out.append(v.as_str());
                },
                None => {},
            }
            proof {
                assert(self.params_model().take(i + 1 as int).drop_last() =~= self
                    .params_model()
                    .take(i as int));
                assert(self.params_model().take(i + 1 as int).last() == self.params_model()[
                    i as int]);
            }
            i = i + 1;
        }
        proof {
            assert(self.params_model().take(n as int) =~= self.params_model());
        }
        out
    }
}

/// The records of a sequence of extensions: name and parameters of each.
pub open spec fn records_of(s: Seq<WebSocketExtension>) -> Seq<(Seq<char>, ParamsModel)> {
    Seq::new(s.len(), |i: int| (s[i].name_model(), s[i].params_model()))
}

/// One parameter parsed from the piece between two semicolons: the part
/// before the first `=` as the name and the whole remainder after that `=`
/// as the value, both trimmed — a value containing further `=` characters
/// is kept as opaque text. Without `=`, a bare parameter.
pub open spec fn param_of_piece(p: Seq<char>) -> ParamModel {
    let ix = crate::strutil::first_ix(p, '=');
    if ix < 0 {
        (trimmed(p), None)
    } else {
        (trimmed(p.take(ix)), Some(trimmed(p.skip(ix + 1))))
    }
}

/// One extension record parsed from the piece between two commas: the part
/// before the first semicolon as the name, the remaining pieces as
/// parameters.
pub open spec fn entry_model(e: Seq<char>) -> (Seq<char>, ParamsModel) {
    let segs = split_on(e, ';');
    (trimmed(segs[0]), segs.drop_first().map_values(|p: Seq<char>| param_of_piece(p)))
}

/// The records of one `Sec-WebSocket-Extensions` header value: entries split
/// on commas, each split on semicolons, each parameter on its first `=`.
pub open spec fn header_value_model(s: Seq<char>) -> Seq<(Seq<char>, ParamsModel)> {
    split_on(s, ',').map_values(|e: Seq<char>| entry_model(e))
}

/// The records of all readable `Sec-WebSocket-Extensions` values of a header
/// map, in order; an unreadable value contributes nothing.
pub open spec fn headers_model(vs: Seq<Option<Seq<char>>>) -> Seq<(Seq<char>, ParamsModel)>
    decreases vs.len(),
{
    if vs.len() == 0 {
        Seq::<(Seq<char>, ParamsModel)>::empty()
    } else {
        headers_model(vs.drop_last()) + (match vs.last() {
            Some(s) => header_value_model(s),
            None => Seq::<(Seq<char>, ParamsModel)>::empty(),
        })
    }
}

/// The header values after writing the records: one value per record whose
/// protocol string `http` accepts, appended in order — readable as its text
/// when the string is visible ASCII, as an unreadable value otherwise. A
/// record whose protocol string `http` refuses is left out.
pub open spec fn written_values(
    vs: Seq<Option<Seq<char>>>,
    records: Seq<(Seq<char>, ParamsModel)>,
) -> Seq<Option<Seq<char>>>
    decreases records.len(),
{
    if records.len() == 0 {
        vs
    } else {
        let w = written_values(vs, records.drop_last());
        let p = proto_model(records.last().0, records.last().1);
        if accepted_header_value(p) {
            w.push(
                if readable_header_value(p) {
                    Some(p)
                } else {
                    None
                },
            )
        } else {
            w
        }
    }
}

/// Relies on `http::HeaderMap::get_all` and `HeaderValue::to_str`: hands out
/// the `Sec-WebSocket-Extensions` values in order, each as its text where it
/// is readable.
#[verifier::external_body]
fn extension_values(headers: &http::HeaderMap) -> (r: Vec<Option<String>>)
    ensures
        r.deep_view() == extension_header_values(*headers),
{
    headers
        .get_all(http::header::SEC_WEBSOCKET_EXTENSIONS)
        .iter()
        .map(|v| v.to_str().ok().map(|s| s.to_string()))
        .collect()
}

/// How one attempt to add a header value went.
enum AppendOutcome {
    /// The value stands at the end of the header's values.
    Appended,
    /// `http` refuses the string as a header value; nothing changed.
    Rejected,
    /// The map is at its size limit; nothing changed.
    Full,
}

/// Relies on `http::HeaderMap::try_append` under the
/// `Sec-WebSocket-Extensions` name, with `HeaderValue::from_str` converting
/// the argument: a value `http` accepts goes to the end of the header's
/// values — reading back as its text exactly when it is visible ASCII — or
/// is refused without change when the map is at its size limit; a string
/// `http` refuses as a header value changes nothing.
#[verifier::external_body]
fn append_extension_value(headers: &mut http::HeaderMap, value: &str) -> (r: AppendOutcome)
    ensures
        r is Rejected <==> !accepted_header_value(value@),
        r is Appended ==> extension_header_values(*final(headers)) == extension_header_values(
            *old(headers),
        ).push(
            if readable_header_value(value@) {
                Some(value@)
            } else {
                None
            },
        ),
        !(r is Appended) ==> extension_header_values(*final(headers)) == extension_header_values(
            *old(headers),
        ),
{
    match http::HeaderValue::from_str(value) {
        Ok(v) => match headers.try_append(http::header::SEC_WEBSOCKET_EXTENSIONS, v) {
            Ok(_) => AppendOutcome::Appended,
            Err(_) => AppendOutcome::Full,
        },
        Err(_) => AppendOutcome::Rejected,
    }
}

impl WebSocketExtensions {
    /// The records at the specification level: name and parameters of each,
    /// in wire order.
    pub open spec fn records_model(&self) -> Seq<(Seq<char>, ParamsModel)> {
        records_of(self.0@)
    }

    /// Create a `WebSocketExtensions` from a `Vec<WebSocketExtension>`.
    pub fn new(extensions: Vec<WebSocketExtension>) -> (r: Self)
        ensures
            r.0@ == extensions@,
    {
        Self(extensions)
    }

    /// The extension records, in wire order.
    pub fn iter(&self) -> (r: &Vec<WebSocketExtension>)
        ensures
            r@ == self.0@,
    {
        &self.0
    }

    /// Parses one `Sec-WebSocket-Extensions` header value: entries split on
    /// commas, parameters on semicolons, a parameter's value after its first
    /// `=`, every token trimmed of spaces and tabs.
    pub fn parse(value: &str) -> (r: Self)
        ensures
            r.records_model() == header_value_model(value@),
    {
        broadcast use crate::strutil::lemma_char_vec_deep_view;

        let chars = chars_vec(value);
        let entries = split_chars(&chars, ',');
        let mut extensions: Vec<WebSocketExtension> = Vec::new();
        let n = entries.len();
        let mut i: usize = 0;
        while i < n
            invariant
                i <= n,
                n == entries@.len(),
                entries.deep_view() == split_on(value@, ','),
                records_of(extensions@) =~= header_value_model(value@).take(i as int),
            decreases n - i,
        {
            let segs = split_chars(&entries[i], ';');
            proof {
                assert(entries@[i as int].deep_view() == entries.deep_view()[i as int]);
                assert(entries@[i as int].deep_view() == entries@[i as int]@);
                assert(segs.deep_view() == split_on(entries.deep_view()[i as int], ';'));
                crate::strutil::lemma_split_on_len(entries.deep_view()[i as int], ';');
                assert(segs.deep_view().len() == segs@.len());
                assert(segs@.len() >= 1);
                assert(segs.deep_view()[0] == segs@[0].deep_view());
                assert(segs@[0].deep_view() == segs@[0]@);
            }
            let name = chars_to_string(&trim_chars(&segs[0]));
            let mut params: Vec<(String, Option<String>)> = Vec::new();
            let m = segs.len();
            let mut j: usize = 1;
            while j < m
                invariant
                    1 <= j <= m,
                    m == segs@.len(),
                    segs.deep_view() == split_on(entries.deep_view()[i as int], ';'),
                    i < entries@.len(),
                    entries.deep_view() == split_on(value@, ','),
                    params.deep_view() =~= segs.deep_view().drop_first().map_values(
                        |p: Seq<char>| param_of_piece(p),
                    ).take(j - 1),
                decreases m - j,
            {
                proof {
                    assert(segs.deep_view()[j as int] == segs@[j as int].deep_view());
                    assert(segs@[j as int].deep_view() == segs@[j as int]@);
                }
                let param: (String, Option<String>) = match crate::strutil::find_char(
                    &segs[j],
                    '=',
                ) {
                    Some(k) => {
                        proof {
                            assert(segs@[j as int]@.take(k as int) =~= segs@[j as int]@.subrange(
                                0,
                                k as int,
                            ));
                            assert(segs@[j as int]@.skip(k + 1 as int) =~= segs@[j as int]@
                                .subrange(k + 1 as int, segs@[j as int]@.len() as int));
                        }
                        let seg_len = segs[j].len();
                        (
                            chars_to_string(&trim_chars(&crate::strutil::slice_chars(&segs[j], 0, k))),
                            Some(
                                chars_to_string(
                                    &trim_chars(
                                        &crate::strutil::slice_chars(&segs[j], k + 1, seg_len),
                                    ),
                                ),
                            ),
                        )
                    },
                    None => (chars_to_string(&trim_chars(&segs[j])), None),
                };
                let ghost pd = param.deep_view();
                proof {
                    assert(pd == param_of_piece(segs.deep_view()[j as int]));
                }
                params.push(param);
                proof {
                    let pm = segs.deep_view().drop_first().map_values(
                        |p: Seq<char>| param_of_piece(p),
                    );
                    assert(pm[j - 1] == param_of_piece(segs.deep_view()[j as int]));
                    assert(pm.take(j as int) =~= pm.take(j - 1).push(pm[j - 1]));
                    assert(params.deep_view() =~= pm.take(j as int));
                }
                j = j + 1;
            }
            let ghost nm = name@;
            let ghost pdv = params.deep_view();
            proof {
                assert(header_value_model(value@).len() == entries.deep_view().len());
                assert(records_of(extensions@).len() == i as int);
                assert(extensions@.len() == i as int);
            }
            extensions.push(WebSocketExtension { name, params });
            proof {
                let hm = header_value_model(value@);
                let e = entries.deep_view()[i as int];
                let pm = segs.deep_view().drop_first().map_values(
                    |p: Seq<char>| param_of_piece(p),
                );
                assert(pm.take(m - 1) =~= pm);
                assert(pdv == pm);
                assert(hm[i as int] == entry_model(e));
                assert(entry_model(e).0 == trimmed(segs.deep_view()[0]));
                assert(nm == trimmed(segs.deep_view()[0]));
                assert(entry_model(e).1 == pm);
                assert(extensions@[i as int].name_model() == nm);
                assert(extensions@[i as int].params_model() == pdv);
                assert(records_of(extensions@)[i as int] == hm[i as int]);
                assert(hm.take(i + 1 as int) =~= hm.take(i as int).push(hm[i as int]));
                assert(records_of(extensions@) =~= hm.take(i + 1 as int));
            }
            i = i + 1;
        }
        proof {
            assert(header_value_model(value@).take(n as int) =~= header_value_model(value@));
        }
        WebSocketExtensions(extensions)
    }

    /// Create a `WebSocketExtensions` from a map of http headers: every
    /// readable `Sec-WebSocket-Extensions` value parsed, in order.
    pub fn from_headers(headers: &http::HeaderMap) -> (r: Self)
        ensures
            r.records_model() == headers_model(extension_header_values(*headers)),
    {
        let values = extension_values(headers);
        let ghost vs = values.deep_view();
        let mut extensions: Vec<WebSocketExtension> = Vec::new();
        let n = values.len();
        let mut i: usize = 0;
        while i < n
            invariant
                i <= n,
                n == values@.len(),
                vs == values.deep_view(),
                records_of(extensions@) =~= headers_model(vs.take(i as int)),
            decreases n - i,
        {
            proof {
                assert(vs.take(i + 1 as int).drop_last() =~= vs.take(i as int));
                assert(vs.take(i + 1 as int).last() == vs[i as int]);
                assert(vs[i as int] == values@[i as int].deep_view());
            }
            match &values[i] {
                Some(s) => {
                    let parsed = Self::parse(s.as_str());
                    let ghost before = extensions@;
                    let mut more = parsed.0;
                    extensions.append(&mut more);
                    proof {
                        assert(records_of(extensions@) =~= records_of(before) + records_of(
                            parsed.0@,
                        ));
                    }
                },
                None => {},
            }
            i = i + 1;
        }
        proof {
            assert(vs.take(n as int) =~= vs);
        }
        WebSocketExtensions(extensions)
    }

    /// Write the records to a map of http headers, one
    /// `Sec-WebSocket-Extensions` value per record, in order. A record
    /// whose protocol string is no legal header value is left out; should
    /// the map reach its size limit, the remaining records stay unwritten.
    pub fn write_headers(&self, headers: &mut http::HeaderMap)
        ensures
            exists|k: int|
                0 <= k <= self.records_model().len() && extension_header_values(*final(headers))
                    == written_values(
                    extension_header_values(*old(headers)),
                    #[trigger] self.records_model().take(k),
                ),
    {
        let ghost records = self.records_model();
        let ghost initial = extension_header_values(*headers);
        let n = self.0.len();
        let mut i: usize = 0;
        while i < n
            invariant
                i <= n,
                n == self.0@.len(),
                records == self.records_model(),
                initial == extension_header_values(*old(headers)),
                extension_header_values(*headers) == written_values(
                    initial,
                    records.take(i as int),
                ),
            decreases n - i,
        {
            let proto = self.0[i].proto();
            let outcome = append_extension_value(headers, proto.as_str());
            proof {
                assert(records.take(i + 1 as int).drop_last() =~= records.take(i as int));
                assert(records.take(i + 1 as int).last() == records[i as int]);
            }
            match outcome {
                AppendOutcome::Full => {
                    // No more room: what stands is the writing of the first
                    // records alone.
                    proof {
                        assert(extension_header_values(*headers) == written_values(
                            initial,
                            records.take(i as int),
                        ));
                    }
                    return ;
                },
                AppendOutcome::Appended => {},
                AppendOutcome::Rejected => {},
            }
            i = i + 1;
        }
        proof {
            assert(records.take(n as int) =~= records);
            assert(extension_header_values(*headers) == written_values(
                initial,
                records.take(n as int),
            ));
        }
    }
}

} // verus!
