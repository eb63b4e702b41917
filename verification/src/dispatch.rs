//! The call multiplexer and the event demultiplexer: route raw call
//! data or a raw log to the first registered schema that fits.
//!
//! Candidates are tried in registration order — never selector order or
//! alphabetical order — and the first whose full decode succeeds wins.
//! That deterministic first-match policy is what makes 4-byte selector
//! collisions between overloads resolvable from bytes alone.

use vstd::prelude::*;
use vstd::slice::slice_subrange;

use crate::decode::{dec_one, dec_params, dx_one};
use crate::errors::{DecodingError, DispatchError};
use crate::schema::{
    bytes_eq, event_registry_wf, field_tys, param_tys, registry_wf, EventField, EventRegistry,
    EventSchema, Param, Schema, SchemaRegistry,
};
use crate::types::{head_size, is_dynamic, ty_valid, tys_valid, AbiType};
use crate::value::{bytes_dup, vals_model, AbiValue, ValModel};

verus! {

/// Try every call schema in registration order; the result carries the
/// index of the first schema whose selector matches and whose argument
/// decode succeeds.
pub open spec fn dec_call(schemas: Seq<Schema>, data: Seq<u8>) -> Option<(int, Seq<ValModel>)>
    decreases schemas.len(),
{
    if schemas.len() == 0 {
        None
    } else {
        let s = schemas[0];
        let try0 = if data.len() >= 4 && s.selector@ == data.take(4) {
            dec_params(param_tys(s.inputs@), data.skip(4))
        } else {
            None
        };
        match try0 {
            Some(vs) => Some((0int, vs)),
            None => match dec_call(schemas.drop_first(), data) {
                Some(kv) => Some((kv.0 + 1, kv.1)),
                None => None,
            },
        }
    }
}

/// Pairwise distinctness of the registered selectors. Whether it holds
/// of a registry is a fact about the actual Keccak-256 digests, which
/// this crate names but cannot compute; callers supply it as a
/// hypothesis where a conclusion needs it.
pub open spec fn selectors_distinct(schemas: Seq<Schema>) -> bool {
    forall|i: int, j: int|
        0 <= i < j < schemas.len() ==> (#[trigger] schemas[i]).selector@ != (
        #[trigger] schemas[j]).selector@
}

/// Shift a first-match result past `k` already-rejected candidates.
pub open spec fn shift_hit(r: Option<(int, Seq<ValModel>)>, k: int) -> Option<(int, Seq<ValModel>)> {
    match r {
        Some(kv) => Some((kv.0 + k, kv.1)),
        None => None,
    }
}

/// A decoded call: which registered schema matched, and its argument
/// values in declared order.
#[derive(Debug)]
pub struct DecodedCall {
    pub schema: usize,
    pub values: Vec<AbiValue>,
}

/// Whether the head of `data` is exactly this selector.
fn selector_matches(sel: &Vec<u8>, data: &[u8]) -> (r: bool)
    ensures
        r == (data@.len() >= 4 && sel@ == data@.take(4)),
{
    if data.len() < 4 || sel.len() != 4 {
        return false;
    }
    let hit = sel[0] == data[0] && sel[1] == data[1] && sel[2] == data[2] && sel[3] == data[3];
    proof {
        if hit {
            assert(sel@ =~= data@.take(4));
        } else {
            assert(sel@ != data@.take(4)) by {
                if sel@ == data@.take(4) {
                    assert(sel@[0] == data@.take(4)[0]);
                    assert(sel@[1] == data@.take(4)[1]);
                    assert(sel@[2] == data@.take(4)[2]);
                    assert(sel@[3] == data@.take(4)[3]);
                }
            }
        }
    }
    hit
}

/// Decode the argument list promised by a schema's input parameters.
pub fn decode_schema_inputs(inputs: &Vec<Param>, data: &[u8]) -> (r: Result<
    Vec<AbiValue>,
    DecodingError,
>)
    requires
        tys_valid(param_tys(inputs@)),
    ensures
        match r {
            Ok(vs) => dec_params(param_tys(inputs@), data@) == Some(vals_model(vs@)),
            Err(_) => dec_params(param_tys(inputs@), data@) is None,
        },
{
    let ghost ts = param_tys(inputs@);
    let n = inputs.len();
    let blen: usize = data.len();
    let mut out: Vec<AbiValue> = Vec::new();
    let mut cur: usize = 0;
    let mut i: usize = 0;
    proof {
        assert(ts.skip(0) =~= ts);
        assert(vals_model(out@) =~= Seq::<ValModel>::empty());
        let r0 = crate::decode::dec_fields(ts, data@, 0);
        if r0 is Some {
            assert(vals_model(out@) + r0->Some_0 =~= r0->Some_0);
        }
    }
    while i < n
        invariant
            ts == param_tys(inputs@),
            tys_valid(ts),
            n == inputs@.len(),
            0 <= i <= n,
            out@.len() == i,
            blen as nat == data@.len(),
            crate::decode::dec_fields(ts, data@, 0) == crate::decode::opt_concat(
                vals_model(out@),
                crate::decode::dec_fields(ts.skip(i as int), data@, cur as nat),
            ),
        decreases n - i,
    {
        let ghost old_out = out@;
        let ghost old_cur = cur as nat;
        proof {
            assert(ts[i as int] == inputs@[i as int].ty);
            assert(ty_valid(ts[i as int]));
            assert(ts.skip(i as int)[0] == ts[i as int]);
            assert(ts.skip(i as int).drop_first() =~= ts.skip(i as int + 1));
        }
        let v = match dx_one(&inputs[i].ty, data, cur) {
            Ok(v) => v,
            Err(d) => {
                return Err(d);
            },
        };
        out.push(v);
        proof {
            assert(vals_model(out@) =~= vals_model(old_out) + seq![v@]);
        }
        if i + 1 < n {
            let hs = match inputs[i].ty.head_len() {
                Some(h) => h,
                None => {
                    proof {
                        lemma_inputs_next_pos_fails(ts.skip(i as int), data@, old_cur, v@);
                    }
                    return Err(DecodingError::LengthOutOfRange);
                },
            };
            cur = match cur.checked_add(hs) {
                Some(c) => c,
                None => {
                    proof {
                        lemma_inputs_next_pos_fails(ts.skip(i as int), data@, old_cur, v@);
                    }
                    return Err(DecodingError::LengthOutOfRange);
                },
            };
        }
        proof {
            let rest = crate::decode::dec_fields(
                ts.skip(i as int + 1),
                data@,
                old_cur + head_size(ts[i as int]),
            );
            assert(crate::decode::dec_fields(ts.skip(i as int), data@, old_cur)
                == crate::decode::opt_concat(seq![v@], rest));
            if rest is Some {
                assert(vals_model(old_out) + (seq![v@] + rest->Some_0) =~= vals_model(out@)
                    + rest->Some_0);
            }
        }
        i = i + 1;
    }
    proof {
        assert(ts.skip(n as int) =~= Seq::<AbiType>::empty());
        assert(vals_model(out@) + Seq::<ValModel>::empty() =~= vals_model(out@));
    }
    Ok(out)
}

/// When the next head position cannot be a `usize`, the remaining
/// members cannot decode.
proof fn lemma_inputs_next_pos_fails(tsr: Seq<AbiType>, block: Seq<u8>, cur: nat, v0: ValModel)
    requires
        tsr.len() >= 2,
        dec_one(tsr[0], block, cur) == Some(v0),
        cur + head_size(tsr[0]) > usize::MAX,
        block.len() <= usize::MAX,
    ensures
        crate::decode::dec_fields(tsr, block, cur) is None,
{
    assert(tsr.drop_first()[0] == tsr[1]);
    assert(dec_one(tsr.drop_first()[0], block, cur + head_size(tsr[0])) is None);
    assert(crate::decode::dec_fields(tsr.drop_first(), block, cur + head_size(tsr[0])) is None);
}

impl SchemaRegistry {
    /// Route raw call data to the first registered schema whose selector
    /// matches its leading 4 bytes and whose full argument decode
    /// succeeds. Candidates are tried in registration order; when no
    /// candidate decodes, the call is unknown.
    pub fn decode_call(&self, data: &[u8]) -> (r: Result<DecodedCall, DispatchError>)
        requires
            registry_wf(self.schemas@),
        ensures
            match r {
                Ok(dc) => dec_call(self.schemas@, data@) == Some(
                    (dc.schema as int, vals_model(dc.values@)),
                ),
                Err(e) => e == DispatchError::NoMatchingSchema && dec_call(self.schemas@, data@)
                    is None,
            },
    {
        let n = self.schemas.len();
        let mut i: usize = 0;
        proof {
            assert(self.schemas@.skip(0) =~= self.schemas@);
        }
        while i < n
            invariant
                registry_wf(self.schemas@),
                n == self.schemas@.len(),
                0 <= i <= n,
                dec_call(self.schemas@, data@) == shift_hit(
                    dec_call(self.schemas@.skip(i as int), data@),
                    i as int,
                ),
            decreases n - i,
        {
            let ghost rem = self.schemas@.skip(i as int);
            proof {
                assert(rem[0] == self.schemas@[i as int]);
                assert(rem.drop_first() =~= self.schemas@.skip(i as int + 1));
                assert(self.schemas@[i as int].wf());
            }
            if selector_matches(&self.schemas[i].selector, data) {
                let body = slice_subrange(data, 4, data.len());
                proof {
                    assert(body@ =~= data@.skip(4));
                }
                match decode_schema_inputs(&self.schemas[i].inputs, body) {
                    Ok(values) => {
                        proof {
                            assert(dec_call(rem, data@) == Some(
                                (0int, vals_model(values@)),
                            ));
                        }
                        return Ok(DecodedCall { schema: i, values });
                    },
                    Err(_) => {},
                }
            }
            i = i + 1;
        }
        proof {
            assert(self.schemas@.skip(n as int) =~= Seq::<Schema>::empty());
        }
        Err(DispatchError::NoMatchingSchema)
    }
}

/// The deep view of a topic list.
pub open spec fn topics_model(ts: Seq<Vec<u8>>) -> Seq<Seq<u8>> {
    Seq::new(ts.len(), |i: int| ts[i]@)
}

/// Decode an event's fields: indexed fields are read from the topics,
/// one 32-byte topic each (a dynamic indexed field appears as its hash,
/// not recoverable in full); non-indexed fields are decoded from `data`
/// under the head/tail rule, in declared order. The topic list must be
/// consumed exactly: a log with surplus topics does not fit the schema.
pub open spec fn dec_event_fields(
    fields: Seq<EventField>,
    topics: Seq<Seq<u8>>,
    ti: nat,
    data: Seq<u8>,
    pos: nat,
) -> Option<Seq<ValModel>>
    decreases fields.len(),
{
    if fields.len() == 0 {
        if ti == topics.len() {
            Some(Seq::empty())
        } else {
            None
        }
    } else {
        let f = fields[0];
        if f.indexed {
            if ti < topics.len() && topics[ti as int].len() == 32 {
                let v0 = if is_dynamic(f.ty) {
                    Some(ValModel::FixedBytes(topics[ti as int]))
                } else {
                    dec_one(f.ty, topics[ti as int], 0)
                };
                match v0 {
                    Some(v) => match dec_event_fields(
                        fields.drop_first(),
                        topics,
                        ti + 1,
                        data,
                        pos,
                    ) {
                        Some(vs) => Some(seq![v] + vs),
                        None => None,
                    },
                    None => None,
                }
            } else {
                None
            }
        } else {
            match dec_one(f.ty, data, pos) {
                Some(v) => match dec_event_fields(
                    fields.drop_first(),
                    topics,
                    ti,
                    data,
                    pos + head_size(f.ty),
                ) {
                    Some(vs) => Some(seq![v] + vs),
                    None => None,
                },
                None => None,
            }
        }
    }
}

/// Try every event schema in registration order; a candidate matches
/// when its topic hash equals the log's first topic.
pub open spec fn dec_log(
    events: Seq<EventSchema>,
    topics: Seq<Seq<u8>>,
    data: Seq<u8>,
) -> Option<(int, Seq<ValModel>)>
    decreases events.len(),
{
    if events.len() == 0 {
        None
    } else {
        let es = events[0];
        let try0 = if topics.len() >= 1 && es.topic0@ == topics[0] {
            dec_event_fields(es.fields@, topics, 1, data, 0)
        } else {
            None
        };
        match try0 {
            Some(vs) => Some((0int, vs)),
            None => match dec_log(events.drop_first(), topics, data) {
                Some(kv) => Some((kv.0 + 1, kv.1)),
                None => None,
            },
        }
    }
}

/// Whether any registered event schema's topic hash equals the log's
/// first topic.
pub open spec fn any_topic_match(events: Seq<EventSchema>, topics: Seq<Seq<u8>>) -> bool {
    exists|i: int|
        0 <= i < events.len() && topics.len() >= 1 && (#[trigger] events[i]).topic0@ == topics[0]
}

/// A decoded log: which registered event schema matched, and every
/// field value in declared order.
#[derive(Debug)]
pub struct DecodedLog {
    pub schema: usize,
    pub values: Vec<AbiValue>,
}

/// Decode the fields of one matched event schema from a log's topics
/// and data payload, rejecting a log whose topic list is not consumed
/// exactly by the schema's indexed fields.
pub fn decode_event_fields(fields: &Vec<EventField>, topics: &Vec<Vec<u8>>, data: &[u8]) -> (r:
    Result<Vec<AbiValue>, DecodingError>)
    requires
        tys_valid(field_tys(fields@)),
    ensures
        match r {
            Ok(vs) => dec_event_fields(fields@, topics_model(topics@), 1, data@, 0) == Some(
                vals_model(vs@),
            ),
            Err(_) => dec_event_fields(fields@, topics_model(topics@), 1, data@, 0) is None,
        },
{
    let ghost tpm = topics_model(topics@);
    let n = fields.len();
    let blen: usize = data.len();
    let tn = topics.len();
    let mut out: Vec<AbiValue> = Vec::new();
    let mut ti: usize = 1;
    let mut cur: Option<usize> = Some(0);
    let ghost mut gpos: nat = 0;
    let mut i: usize = 0;
    proof {
        assert(fields@.skip(0) =~= fields@);
        assert(vals_model(out@) =~= Seq::<ValModel>::empty());
        let r0 = dec_event_fields(fields@, tpm, 1, data@, 0);
        if r0 is Some {
            assert(vals_model(out@) + r0->Some_0 =~= r0->Some_0);
        }
    }
    while i < n
        invariant
            tys_valid(field_tys(fields@)),
            tpm == topics_model(topics@),
            n == fields@.len(),
            tn == topics@.len(),
            0 <= i <= n,
            1 <= ti,
            out@.len() == i,
            blen as nat == data@.len(),
            match cur {
                Some(c) => c as nat == gpos,
                None => gpos > usize::MAX,
            },
            dec_event_fields(fields@, tpm, 1, data@, 0) == crate::decode::opt_concat(
                vals_model(out@),
                dec_event_fields(fields@.skip(i as int), tpm, ti as nat, data@, gpos),
            ),
        decreases n - i,
    {
        let ghost old_out = out@;
        let ghost fr = fields@.skip(i as int);
        proof {
            assert(fr[0] == fields@[i as int]);
            assert(fr.drop_first() =~= fields@.skip(i as int + 1));
            assert(field_tys(fields@)[i as int] == fields@[i as int].ty);
            assert(ty_valid(fields@[i as int].ty));
        }
        let f = &fields[i];
        if f.indexed {
            if !(ti < tn) {
                return Err(DecodingError::TooShort);
            }
            let topic = &topics[ti];
            proof {
                assert(tpm[ti as int] == topics@[ti as int]@);
            }
            if topic.len() != 32 {
                return Err(DecodingError::TooShort);
            }
            let v = if f.ty.dynamic() {
                AbiValue::FixedBytes(bytes_dup(topic))
            } else {
                match dx_one(&f.ty, topic.as_slice(), 0) {
                    Ok(v) => v,
                    Err(d) => {
                        return Err(d);
                    },
                }
            };
            out.push(v);
            proof {
                assert(vals_model(out@) =~= vals_model(old_out) + seq![v@]);
                let rest = dec_event_fields(
                    fields@.skip(i as int + 1),
                    tpm,
                    ti as nat + 1,
                    data@,
                    gpos,
                );
                assert(dec_event_fields(fr, tpm, ti as nat, data@, gpos)
                    == crate::decode::opt_concat(seq![v@], rest));
                if rest is Some {
                    assert(vals_model(old_out) + (seq![v@] + rest->Some_0) =~= vals_model(out@)
                        + rest->Some_0);
                }
            }
            ti = ti + 1;
        } else {
            let c = match cur {
                Some(c) => c,
                None => {
                    proof {
                        assert(dec_one(fields@[i as int].ty, data@, gpos) is None);
                    }
                    return Err(DecodingError::LengthOutOfRange);
                },
            };
            let v = match dx_one(&f.ty, data, c) {
                Ok(v) => v,
                Err(d) => {
                    return Err(d);
                },
            };
            out.push(v);
            proof {
                assert(vals_model(out@) =~= vals_model(old_out) + seq![v@]);
                let rest = dec_event_fields(
                    fields@.skip(i as int + 1),
                    tpm,
                    ti as nat,
                    data@,
                    gpos + head_size(fields@[i as int].ty),
                );
                assert(dec_event_fields(fr, tpm, ti as nat, data@, gpos)
                    == crate::decode::opt_concat(seq![v@], rest));
                if rest is Some {
                    assert(vals_model(old_out) + (seq![v@] + rest->Some_0) =~= vals_model(out@)
                        + rest->Some_0);
                }
            }
            let hs_opt = f.ty.head_len();
            cur = match hs_opt {
                Some(hs) => c.checked_add(hs),
                None => None,
            };
            proof {
                gpos = gpos + head_size(fields@[i as int].ty);
            }
        }
        i = i + 1;
    }
    proof {
        assert(fields@.skip(n as int) =~= Seq::<EventField>::empty());
        assert(vals_model(out@) + Seq::<ValModel>::empty() =~= vals_model(out@));
    }
    if ti != tn {
        return Err(DecodingError::ShapeMismatch);
    }
    Ok(out)
}

impl EventRegistry {
    /// Route a raw log to the first registered event schema whose topic
    /// hash equals the log's first topic and whose field decode
    /// succeeds. An unknown first topic is an unknown event; a matching
    /// topic with malformed topics or data is a decoding failure.
    pub fn decode_log(&self, topics: &Vec<Vec<u8>>, data: &[u8]) -> (r: Result<
        DecodedLog,
        DispatchError,
    >)
        requires
            event_registry_wf(self.events@),
        ensures
            match r {
                Ok(dl) => dec_log(self.events@, topics_model(topics@), data@) == Some(
                    (dl.schema as int, vals_model(dl.values@)),
                ),
                Err(e) => {
                    &&& dec_log(self.events@, topics_model(topics@), data@) is None
                    &&& (e == DispatchError::NoMatchingSchema <==> !any_topic_match(
                        self.events@,
                        topics_model(topics@),
                    ))
                    &&& (e matches DispatchError::Decoding(_) <==> any_topic_match(
                        self.events@,
                        topics_model(topics@),
                    ))
                },
            },
    {
        let ghost tpm = topics_model(topics@);
        let n = self.events.len();
        let mut matched = false;
        let mut i: usize = 0;
        proof {
            assert(self.events@.skip(0) =~= self.events@);
        }
        while i < n
            invariant
                event_registry_wf(self.events@),
                tpm == topics_model(topics@),
                n == self.events@.len(),
                0 <= i <= n,
                matched == exists|j: int|
                    0 <= j < i && topics@.len() >= 1 && (#[trigger] self.events@[j]).topic0@
                        == tpm[0],
                dec_log(self.events@, tpm, data@) == shift_hit(
                    dec_log(self.events@.skip(i as int), tpm, data@),
                    i as int,
                ),
            decreases n - i,
        {
            let ghost rem = self.events@.skip(i as int);
            proof {
                assert(rem[0] == self.events@[i as int]);
                assert(rem.drop_first() =~= self.events@.skip(i as int + 1));
                assert(self.events@[i as int].wf());
            }
            let topic_hit = if topics.len() >= 1 {
                proof {
                    assert(tpm[0] == topics@[0]@);
                }
                bytes_eq(&self.events[i].topic0, &topics[0])
            } else {
                false
            };
            if topic_hit {
                matched = true;
                match decode_event_fields(&self.events[i].fields, topics, data) {
                    Ok(values) => {
                        proof {
                            assert(dec_log(rem, tpm, data@) == Some((0int, vals_model(values@))));
                        }
                        return Ok(DecodedLog { schema: i, values });
                    },
                    Err(_) => {},
                }
            }
            i = i + 1;
        }
        proof {
            assert(self.events@.skip(n as int) =~= Seq::<EventSchema>::empty());
        }
        if matched {
            Err(DispatchError::Decoding(DecodingError::ShapeMismatch))
        } else {
            Err(DispatchError::NoMatchingSchema)
        }
    }
}


/// What a first-match hit means: the winning schema's selector heads the
/// data, its arguments decode to exactly the returned values, and every
/// earlier candidate either has a different selector or fails to decode.
pub proof fn lemma_dec_call_first(schemas: Seq<Schema>, data: Seq<u8>)
    requires
        dec_call(schemas, data) is Some,
    ensures
        ({
            let kv = dec_call(schemas, data)->Some_0;
            &&& 0 <= kv.0 < schemas.len()
            &&& data.len() >= 4
            &&& schemas[kv.0].selector@ == data.take(4)
            &&& dec_params(param_tys(schemas[kv.0].inputs@), data.skip(4)) == Some(kv.1)
            &&& forall|j: int|
                0 <= j < kv.0 ==> !((#[trigger] schemas[j]).selector@ == data.take(4) && dec_params(
                    param_tys(schemas[j].inputs@),
                    data.skip(4),
                ) is Some)
        }),
    decreases schemas.len(),
{
    let kv = dec_call(schemas, data)->Some_0;
    let s0 = schemas[0];
    let try0 = if data.len() >= 4 && s0.selector@ == data.take(4) {
        dec_params(param_tys(s0.inputs@), data.skip(4))
    } else {
        None
    };
    if try0 is Some {
    } else {
        lemma_dec_call_first(schemas.drop_first(), data);
        let kv1 = dec_call(schemas.drop_first(), data)->Some_0;
        assert(schemas.drop_first()[kv1.0] == schemas[kv1.0 + 1]);
        assert forall|j: int|
            0 <= j < kv.0 implies !((#[trigger] schemas[j]).selector@ == data.take(4) && dec_params(
                param_tys(schemas[j].inputs@),
                data.skip(4),
            ) is Some) by {
            if j > 0 {
                assert(schemas.drop_first()[j - 1] == schemas[j]);
            }
        }
    }
}

/// What a first-match log hit means: the winning event schema's topic
/// hash equals the log's first topic and its fields decode to exactly
/// the returned values.
pub proof fn lemma_dec_log_first(events: Seq<EventSchema>, topics: Seq<Seq<u8>>, data: Seq<u8>)
    requires
        dec_log(events, topics, data) is Some,
    ensures
        ({
            let kv = dec_log(events, topics, data)->Some_0;
            &&& 0 <= kv.0 < events.len()
            &&& topics.len() >= 1
            &&& events[kv.0].topic0@ == topics[0]
            &&& dec_event_fields(events[kv.0].fields@, topics, 1, data, 0) == Some(kv.1)
        }),
    decreases events.len(),
{
    let es = events[0];
    let try0 = if topics.len() >= 1 && es.topic0@ == topics[0] {
        dec_event_fields(es.fields@, topics, 1, data, 0)
    } else {
        None
    };
    if try0 is Some {
    } else {
        lemma_dec_log_first(events.drop_first(), topics, data);
        let kv1 = dec_log(events.drop_first(), topics, data)->Some_0;
        assert(events.drop_first()[kv1.0] == events[kv1.0 + 1]);
    }
}

/// When no indexed field is dynamically sized, decoded event fields
/// always match their descriptors.
pub proof fn lemma_dec_event_fields_matches(
    fields: Seq<EventField>,
    topics: Seq<Seq<u8>>,
    ti: nat,
    data: Seq<u8>,
    pos: nat,
)
    requires
        tys_valid(field_tys(fields)),
        forall|i: int|
            0 <= i < fields.len() ==> ((#[trigger] fields[i]).indexed ==> !is_dynamic(
                fields[i].ty,
            )),
        dec_event_fields(fields, topics, ti, data, pos) is Some,
    ensures
        crate::value::fields_match(
            dec_event_fields(fields, topics, ti, data, pos)->Some_0,
            field_tys(fields),
        ),
    decreases fields.len(),
{
    if fields.len() > 0 {
        let f = fields[0];
        assert(field_tys(fields)[0] == f.ty);
        assert(ty_valid(f.ty));
        let fr = fields.drop_first();
        assert forall|i: int| 0 <= i < fr.len() implies ty_valid(
            #[trigger] field_tys(fr)[i],
        ) && ((fr[i]).indexed ==> !is_dynamic(fr[i].ty)) by {
            assert(fr[i] == fields[i + 1]);
            assert(ty_valid(field_tys(fields)[i + 1]));
            assert(field_tys(fr)[i] == fr[i].ty);
        }
        if f.indexed {
            let v = crate::decode::dec_one(f.ty, topics[ti as int], 0)->Some_0;
            crate::decode::lemma_dec_one_matches(f.ty, topics[ti as int], 0);
            lemma_dec_event_fields_matches(fr, topics, ti + 1, data, pos);
            let vs = dec_event_fields(fr, topics, ti + 1, data, pos)->Some_0;
            let whole = seq![v] + vs;
            assert forall|j: int| 0 <= j < fields.len() implies crate::value::val_matches(
                whole[j],
                #[trigger] field_tys(fields)[j],
            ) by {
                if j > 0 {
                    assert(whole[j] == vs[j - 1]);
                    assert(crate::value::val_matches(vs[j - 1], field_tys(fr)[j - 1]));
                    assert(field_tys(fr)[j - 1] == field_tys(fields)[j]);
                }
            }
        } else {
            let v = crate::decode::dec_one(f.ty, data, pos)->Some_0;
            crate::decode::lemma_dec_one_matches(f.ty, data, pos);
            lemma_dec_event_fields_matches(fr, topics, ti, data, pos + head_size(f.ty));
            let vs = dec_event_fields(fr, topics, ti, data, pos + head_size(f.ty))->Some_0;
            let whole = seq![v] + vs;
            assert forall|j: int| 0 <= j < fields.len() implies crate::value::val_matches(
                whole[j],
                #[trigger] field_tys(fields)[j],
            ) by {
                if j > 0 {
                    assert(whole[j] == vs[j - 1]);
                    assert(crate::value::val_matches(vs[j - 1], field_tys(fr)[j - 1]));
                    assert(field_tys(fr)[j - 1] == field_tys(fields)[j]);
                }
            }
        }
    }
}


/// If some candidate's selector heads the data and its arguments
/// decode, the multiplexer finds a hit.
pub proof fn lemma_some_candidate_decodes(schemas: Seq<Schema>, data: Seq<u8>, i: int)
    requires
        0 <= i < schemas.len(),
        data.len() >= 4,
        schemas[i].selector@ == data.take(4),
        dec_params(param_tys(schemas[i].inputs@), data.skip(4)) is Some,
    ensures
        dec_call(schemas, data) is Some,
    decreases schemas.len(),
{
    let s0 = schemas[0];
    let try0 = if data.len() >= 4 && s0.selector@ == data.take(4) {
        dec_params(param_tys(s0.inputs@), data.skip(4))
    } else {
        None
    };
    if try0 is Some {
    } else {
        assert(i != 0);
        assert(schemas.drop_first()[i - 1] == schemas[i]);
        lemma_some_candidate_decodes(schemas.drop_first(), data, i - 1);
    }
}

/// When exactly one registered candidate decodes cleanly, the
/// multiplexer reaches that structurally correct one — whatever other
/// schemas share its selector.
pub proof fn lemma_single_clean_candidate(schemas: Seq<Schema>, data: Seq<u8>, i: int)
    requires
        0 <= i < schemas.len(),
        data.len() >= 4,
        schemas[i].selector@ == data.take(4),
        dec_params(param_tys(schemas[i].inputs@), data.skip(4)) is Some,
        forall|j: int|
            0 <= j < schemas.len() && j != i ==> !((#[trigger] schemas[j]).selector@ == data.take(4)
                && dec_params(param_tys(schemas[j].inputs@), data.skip(4)) is Some),
    ensures
        dec_call(schemas, data) == Some(
            (i, dec_params(param_tys(schemas[i].inputs@), data.skip(4))->Some_0),
        ),
{
    lemma_some_candidate_decodes(schemas, data, i);
    lemma_dec_call_first(schemas, data);
    let kv = dec_call(schemas, data)->Some_0;
    if kv.0 != i {
        assert(!(schemas[kv.0].selector@ == data.take(4) && dec_params(
            param_tys(schemas[kv.0].inputs@),
            data.skip(4),
        ) is Some));
    }
}

} // verus!
