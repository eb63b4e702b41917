//! The Mailbox contract interface, instantiated on the codec: its call
//! and event schemas, calldata builders for every contract function,
//! and the typed multiplexer and demultiplexer over them.
//!
//! Call schemas are registered in one fixed declaration order, and the
//! multiplexer tries them in exactly that order; the registry built here
//! is the same, value for value, on every construction.

use vstd::prelude::*;
use vstd::string::StringSliceAdditionalSpecFns;
use vstd::slice::slice_to_vec;

use crate::keccak::selector_of;
use crate::keccak::topic_of;
use crate::schema::{
    field_tys, param_tys, EventField, EventRegistry, EventSchema, Mutability, Param, Schema,
    SchemaRegistry,
};
use crate::encode::enc_params;
use crate::dispatch::dec_call;
use crate::errors::{DecodingError, DispatchError, EncodingError};
use crate::types::{tys_valid, AbiType};
use crate::value::{bytes_dup, fields_match, vals_model, AbiValue, ValModel};
use crate::words::{be_bytes, lemma_be_bytes_len};

verus! {

/// The bytes of an ASCII name.
fn name_bytes(s: &str) -> (r: Vec<u8>)
    ensures
        r@ == s.spec_bytes(),
{
    slice_to_vec(s.as_bytes())
}

/// One schema with the given shape, its selector derived from its own
/// canonical signature.
pub open spec fn is_fn_schema(
    s: Schema,
    name: Seq<u8>,
    pnames: Seq<Seq<u8>>,
    tys: Seq<AbiType>,
    outs: Seq<AbiType>,
    m: Mutability,
) -> bool {
    &&& s.name@ == name
    &&& s.mutability == m
    &&& s.outputs@ == outs
    &&& s.inputs@.len() == tys.len()
    &&& pnames.len() == tys.len()
    &&& forall|j: int|
        0 <= j < tys.len() ==> (#[trigger] s.inputs@[j]).name@ == pnames[j] && s.inputs@[j].ty
            == tys[j]
    &&& s.selector@ == selector_of(name, tys)
    &&& s.selector@.len() == 4
}

/// One event schema with the given shape, its topic derived from its
/// own canonical signature.
pub open spec fn is_ev_schema(
    s: EventSchema,
    name: Seq<u8>,
    fnames: Seq<Seq<u8>>,
    tys: Seq<AbiType>,
    idx: Seq<bool>,
) -> bool {
    &&& s.name@ == name
    &&& s.fields@.len() == tys.len()
    &&& fnames.len() == tys.len()
    &&& idx.len() == tys.len()
    &&& forall|j: int|
        0 <= j < tys.len() ==> (#[trigger] s.fields@[j]).name@ == fnames[j] && s.fields@[j].ty
            == tys[j] && s.fields@[j].indexed == idx[j]
    &&& s.topic0@ == topic_of(name, tys)
    &&& s.topic0@.len() == 32
}

pub open spec fn tys_id() -> Seq<AbiType> {
    seq![AbiType::FixedBytes(32)]
}

pub open spec fn tys_addr() -> Seq<AbiType> {
    seq![AbiType::Address]
}

pub open spec fn tys_dispatch3() -> Seq<AbiType> {
    seq![AbiType::Uint(32), AbiType::FixedBytes(32), AbiType::Bytes]
}

pub open spec fn tys_dispatch4() -> Seq<AbiType> {
    seq![AbiType::Uint(32), AbiType::FixedBytes(32), AbiType::Bytes, AbiType::Bytes]
}

pub open spec fn tys_dispatch5() -> Seq<AbiType> {
    seq![
        AbiType::Uint(32),
        AbiType::FixedBytes(32),
        AbiType::Bytes,
        AbiType::Bytes,
        AbiType::Address,
    ]
}

pub open spec fn tys_init() -> Seq<AbiType> {
    seq![AbiType::Address, AbiType::Address, AbiType::Address, AbiType::Address]
}

pub open spec fn tys_process() -> Seq<AbiType> {
    seq![AbiType::Bytes, AbiType::Bytes]
}

/// What stands at each index of the Mailbox call registry, in the fixed
/// declaration order the multiplexer tries.
pub open spec fn mailbox_call_at(s: Schema, i: int) -> bool {
    if i == 0 {
        is_fn_schema(
            s,
            "VERSION".spec_bytes(),
            Seq::empty(),
            Seq::empty(),
            seq![AbiType::Uint(8)],
            Mutability::ReadOnly,
        )
    } else if i == 1 {
        is_fn_schema(
            s,
            "defaultHook".spec_bytes(),
            Seq::empty(),
            Seq::empty(),
            seq![AbiType::Address],
            Mutability::ReadOnly,
        )
    } else if i == 2 {
        is_fn_schema(
            s,
            "defaultIsm".spec_bytes(),
            Seq::empty(),
            Seq::empty(),
            seq![AbiType::Address],
            Mutability::ReadOnly,
        )
    } else if i == 3 {
        is_fn_schema(
            s,
            "delivered".spec_bytes(),
            seq!["_id".spec_bytes()],
            tys_id(),
            seq![AbiType::Bool],
            Mutability::ReadOnly,
        )
    } else if i == 4 {
        is_fn_schema(
            s,
            "deployedBlock".spec_bytes(),
            Seq::empty(),
            Seq::empty(),
            seq![AbiType::Uint(256)],
            Mutability::ReadOnly,
        )
    } else if i == 5 {
        is_fn_schema(
            s,
            "dispatch".spec_bytes(),
            seq![
                "destinationDomain".spec_bytes(),
                "recipientAddress".spec_bytes(),
                "messageBody".spec_bytes(),
                "metadata".spec_bytes(),
                "hook".spec_bytes(),
            ],
            tys_dispatch5(),
            seq![AbiType::FixedBytes(32)],
            Mutability::Payable,
        )
    } else if i == 6 {
        is_fn_schema(
            s,
            "dispatch".spec_bytes(),
            seq![
                "destinationDomain".spec_bytes(),
                "recipientAddress".spec_bytes(),
                "messageBody".spec_bytes(),
                "hookMetadata".spec_bytes(),
            ],
            tys_dispatch4(),
            seq![AbiType::FixedBytes(32)],
            Mutability::Payable,
        )
    } else if i == 7 {
        is_fn_schema(
            s,
            "dispatch".spec_bytes(),
            seq![
                "_destinationDomain".spec_bytes(),
                "_recipientAddress".spec_bytes(),
                "_messageBody".spec_bytes(),
            ],
            tys_dispatch3(),
            seq![AbiType::FixedBytes(32)],
            Mutability::Payable,
        )
    } else if i == 8 {
        is_fn_schema(
            s,
            "initialize".spec_bytes(),
            seq![
                "_owner".spec_bytes(),
                "_defaultIsm".spec_bytes(),
                "_defaultHook".spec_bytes(),
                "_requiredHook".spec_bytes(),
            ],
            tys_init(),
            Seq::empty(),
            Mutability::StateChanging,
        )
    } else if i == 9 {
        is_fn_schema(
            s,
            "latestDispatchedId".spec_bytes(),
            Seq::empty(),
            Seq::empty(),
            seq![AbiType::FixedBytes(32)],
            Mutability::ReadOnly,
        )
    } else if i == 10 {
        is_fn_schema(
            s,
            "localDomain".spec_bytes(),
            Seq::empty(),
            Seq::empty(),
            seq![AbiType::Uint(32)],
            Mutability::ReadOnly,
        )
    } else if i == 11 {
        is_fn_schema(
            s,
            "nonce".spec_bytes(),
            Seq::empty(),
            Seq::empty(),
            seq![AbiType::Uint(32)],
            Mutability::ReadOnly,
        )
    } else if i == 12 {
        is_fn_schema(
            s,
            "owner".spec_bytes(),
            Seq::empty(),
            Seq::empty(),
            seq![AbiType::Address],
            Mutability::ReadOnly,
        )
    } else if i == 13 {
        is_fn_schema(
            s,
            "process".spec_bytes(),
            seq!["_metadata".spec_bytes(), "_message".spec_bytes()],
            tys_process(),
            Seq::empty(),
            Mutability::Payable,
        )
    } else if i == 14 {
        is_fn_schema(
            s,
            "processedAt".spec_bytes(),
            seq!["_id".spec_bytes()],
            tys_id(),
            seq![AbiType::Uint(48)],
            Mutability::ReadOnly,
        )
    } else if i == 15 {
        is_fn_schema(
            s,
            "processor".spec_bytes(),
            seq!["_id".spec_bytes()],
            tys_id(),
            seq![AbiType::Address],
            Mutability::ReadOnly,
        )
    } else if i == 16 {
        is_fn_schema(
            s,
            "quoteDispatch".spec_bytes(),
            seq![
                "destinationDomain".spec_bytes(),
                "recipientAddress".spec_bytes(),
                "messageBody".spec_bytes(),
                "metadata".spec_bytes(),
                "hook".spec_bytes(),
            ],
            tys_dispatch5(),
            seq![AbiType::Uint(256)],
            Mutability::ReadOnly,
        )
    } else if i == 17 {
        is_fn_schema(
            s,
            "quoteDispatch".spec_bytes(),
            seq![
                "destinationDomain".spec_bytes(),
                "recipientAddress".spec_bytes(),
                "messageBody".spec_bytes(),
            ],
            tys_dispatch3(),
            seq![AbiType::Uint(256)],
            Mutability::ReadOnly,
        )
    } else if i == 18 {
        is_fn_schema(
            s,
            "quoteDispatch".spec_bytes(),
            seq![
                "destinationDomain".spec_bytes(),
                "recipientAddress".spec_bytes(),
                "messageBody".spec_bytes(),
                "defaultHookMetadata".spec_bytes(),
            ],
            tys_dispatch4(),
            seq![AbiType::Uint(256)],
            Mutability::ReadOnly,
        )
    } else if i == 19 {
        is_fn_schema(
            s,
            "recipientIsm".spec_bytes(),
            seq!["_recipient".spec_bytes()],
            tys_addr(),
            seq![AbiType::Address],
            Mutability::ReadOnly,
        )
    } else if i == 20 {
        is_fn_schema(
            s,
            "renounceOwnership".spec_bytes(),
            Seq::empty(),
            Seq::empty(),
            Seq::empty(),
            Mutability::StateChanging,
        )
    } else if i == 21 {
        is_fn_schema(
            s,
            "requiredHook".spec_bytes(),
            Seq::empty(),
            Seq::empty(),
            seq![AbiType::Address],
            Mutability::ReadOnly,
        )
    } else if i == 22 {
        is_fn_schema(
            s,
            "setDefaultHook".spec_bytes(),
            seq!["_hook".spec_bytes()],
            tys_addr(),
            Seq::empty(),
            Mutability::StateChanging,
        )
    } else if i == 23 {
        is_fn_schema(
            s,
            "setDefaultIsm".spec_bytes(),
            seq!["_module".spec_bytes()],
            tys_addr(),
            Seq::empty(),
            Mutability::StateChanging,
        )
    } else if i == 24 {
        is_fn_schema(
            s,
            "setRequiredHook".spec_bytes(),
            seq!["_hook".spec_bytes()],
            tys_addr(),
            Seq::empty(),
            Mutability::StateChanging,
        )
    } else if i == 25 {
        is_fn_schema(
            s,
            "transferOwnership".spec_bytes(),
            seq!["newOwner".spec_bytes()],
            tys_addr(),
            Seq::empty(),
            Mutability::StateChanging,
        )
    } else {
        false
    }
}

pub open spec fn ev_dispatch_tys() -> Seq<AbiType> {
    seq![AbiType::Address, AbiType::Uint(32), AbiType::FixedBytes(32), AbiType::Bytes]
}

pub open spec fn ev_process_tys() -> Seq<AbiType> {
    seq![AbiType::Uint(32), AbiType::FixedBytes(32), AbiType::Address]
}

/// What stands at each index of the Mailbox event registry.
pub open spec fn mailbox_event_at(s: EventSchema, i: int) -> bool {
    if i == 0 {
        is_ev_schema(
            s,
            "DefaultHookSet".spec_bytes(),
            seq!["hook".spec_bytes()],
            tys_addr(),
            seq![true],
        )
    } else if i == 1 {
        is_ev_schema(
            s,
            "DefaultIsmSet".spec_bytes(),
            seq!["module".spec_bytes()],
            tys_addr(),
            seq![true],
        )
    } else if i == 2 {
        is_ev_schema(
            s,
            "Dispatch".spec_bytes(),
            seq![
                "sender".spec_bytes(),
                "destination".spec_bytes(),
                "recipient".spec_bytes(),
                "message".spec_bytes(),
            ],
            ev_dispatch_tys(),
            seq![true, true, true, false],
        )
    } else if i == 3 {
        is_ev_schema(
            s,
            "DispatchId".spec_bytes(),
            seq!["messageId".spec_bytes()],
            tys_id(),
            seq![true],
        )
    } else if i == 4 {
        is_ev_schema(
            s,
            "Initialized".spec_bytes(),
            seq!["version".spec_bytes()],
            seq![AbiType::Uint(8)],
            seq![false],
        )
    } else if i == 5 {
        is_ev_schema(
            s,
            "OwnershipTransferred".spec_bytes(),
            seq!["previousOwner".spec_bytes(), "newOwner".spec_bytes()],
            seq![AbiType::Address, AbiType::Address],
            seq![true, true],
        )
    } else if i == 6 {
        is_ev_schema(
            s,
            "Process".spec_bytes(),
            seq!["origin".spec_bytes(), "sender".spec_bytes(), "recipient".spec_bytes()],
            ev_process_tys(),
            seq![true, true, true],
        )
    } else if i == 7 {
        is_ev_schema(
            s,
            "ProcessId".spec_bytes(),
            seq!["messageId".spec_bytes()],
            tys_id(),
            seq![true],
        )
    } else if i == 8 {
        is_ev_schema(
            s,
            "RequiredHookSet".spec_bytes(),
            seq!["hook".spec_bytes()],
            tys_addr(),
            seq![true],
        )
    } else {
        false
    }
}

/// The whole Mailbox call registry, entry for entry.
pub open spec fn is_mailbox_calls(schemas: Seq<Schema>) -> bool {
    schemas.len() == 26 && forall|i: int| 0 <= i < 26 ==> mailbox_call_at(#[trigger] schemas[i], i)
}

/// The whole Mailbox event registry, entry for entry.
pub open spec fn is_mailbox_events(events: Seq<EventSchema>) -> bool {
    events.len() == 9 && forall|i: int| 0 <= i < 9 ==> mailbox_event_at(#[trigger] events[i], i)
}

fn p1(n1: &str, t1: AbiType) -> (r: Vec<Param>)
    ensures
        r@.len() == 1,
        r@[0].name@ == n1.spec_bytes() && r@[0].ty == t1,
{
    let mut r: Vec<Param> = Vec::new();
    r.push(Param { name: name_bytes(n1), ty: t1 });
    r
}

fn p2(n1: &str, t1: AbiType, n2: &str, t2: AbiType) -> (r: Vec<Param>)
    ensures
        r@.len() == 2,
        r@[0].name@ == n1.spec_bytes() && r@[0].ty == t1,
        r@[1].name@ == n2.spec_bytes() && r@[1].ty == t2,
{
    let mut r: Vec<Param> = Vec::new();
    r.push(Param { name: name_bytes(n1), ty: t1 });
    r.push(Param { name: name_bytes(n2), ty: t2 });
    r
}

fn p3(n1: &str, t1: AbiType, n2: &str, t2: AbiType, n3: &str, t3: AbiType) -> (r: Vec<Param>)
    ensures
        r@.len() == 3,
        r@[0].name@ == n1.spec_bytes() && r@[0].ty == t1,
        r@[1].name@ == n2.spec_bytes() && r@[1].ty == t2,
        r@[2].name@ == n3.spec_bytes() && r@[2].ty == t3,
{
    let mut r: Vec<Param> = Vec::new();
    r.push(Param { name: name_bytes(n1), ty: t1 });
    r.push(Param { name: name_bytes(n2), ty: t2 });
    r.push(Param { name: name_bytes(n3), ty: t3 });
    r
}

fn p4(
    n1: &str,
    t1: AbiType,
    n2: &str,
    t2: AbiType,
    n3: &str,
    t3: AbiType,
    n4: &str,
    t4: AbiType,
) -> (r: Vec<Param>)
    ensures
        r@.len() == 4,
        r@[0].name@ == n1.spec_bytes() && r@[0].ty == t1,
        r@[1].name@ == n2.spec_bytes() && r@[1].ty == t2,
        r@[2].name@ == n3.spec_bytes() && r@[2].ty == t3,
        r@[3].name@ == n4.spec_bytes() && r@[3].ty == t4,
{
    let mut r: Vec<Param> = Vec::new();
    r.push(Param { name: name_bytes(n1), ty: t1 });
    r.push(Param { name: name_bytes(n2), ty: t2 });
    r.push(Param { name: name_bytes(n3), ty: t3 });
    r.push(Param { name: name_bytes(n4), ty: t4 });
    r
}

fn p5(
    n1: &str,
    t1: AbiType,
    n2: &str,
    t2: AbiType,
    n3: &str,
    t3: AbiType,
    n4: &str,
    t4: AbiType,
    n5: &str,
    t5: AbiType,
) -> (r: Vec<Param>)
    ensures
        r@.len() == 5,
        r@[0].name@ == n1.spec_bytes() && r@[0].ty == t1,
        r@[1].name@ == n2.spec_bytes() && r@[1].ty == t2,
        r@[2].name@ == n3.spec_bytes() && r@[2].ty == t3,
        r@[3].name@ == n4.spec_bytes() && r@[3].ty == t4,
        r@[4].name@ == n5.spec_bytes() && r@[4].ty == t5,
{
    let mut r: Vec<Param> = Vec::new();
    r.push(Param { name: name_bytes(n1), ty: t1 });
    r.push(Param { name: name_bytes(n2), ty: t2 });
    r.push(Param { name: name_bytes(n3), ty: t3 });
    r.push(Param { name: name_bytes(n4), ty: t4 });
    r.push(Param { name: name_bytes(n5), ty: t5 });
    r
}

fn out0() -> (r: Vec<AbiType>)
    ensures
        r@ == Seq::<AbiType>::empty(),
{
    let r: Vec<AbiType> = Vec::new();
    proof {
        assert(r@ =~= Seq::<AbiType>::empty());
    }
    r
}

fn out1(t: AbiType) -> (r: Vec<AbiType>)
    ensures
        r@ == seq![t],
{
    let mut r: Vec<AbiType> = Vec::new();
    r.push(t);
    proof {
        assert(r@ =~= seq![t]);
    }
    r
}

fn f1(n1: &str, t1: AbiType, i1: bool) -> (r: Vec<EventField>)
    ensures
        r@.len() == 1,
        r@[0].name@ == n1.spec_bytes() && r@[0].ty == t1 && r@[0].indexed == i1,
{
    let mut r: Vec<EventField> = Vec::new();
    r.push(EventField { name: name_bytes(n1), ty: t1, indexed: i1 });
    r
}

fn f2(n1: &str, t1: AbiType, i1: bool, n2: &str, t2: AbiType, i2: bool) -> (r: Vec<EventField>)
    ensures
        r@.len() == 2,
        r@[0].name@ == n1.spec_bytes() && r@[0].ty == t1 && r@[0].indexed == i1,
        r@[1].name@ == n2.spec_bytes() && r@[1].ty == t2 && r@[1].indexed == i2,
{
    let mut r: Vec<EventField> = Vec::new();
    r.push(EventField { name: name_bytes(n1), ty: t1, indexed: i1 });
    r.push(EventField { name: name_bytes(n2), ty: t2, indexed: i2 });
    r
}

fn f3(n1: &str, t1: AbiType, i1: bool, n2: &str, t2: AbiType, i2: bool, n3: &str, t3: AbiType, i3: bool) -> (r: Vec<EventField>)
    ensures
        r@.len() == 3,
        r@[0].name@ == n1.spec_bytes() && r@[0].ty == t1 && r@[0].indexed == i1,
        r@[1].name@ == n2.spec_bytes() && r@[1].ty == t2 && r@[1].indexed == i2,
        r@[2].name@ == n3.spec_bytes() && r@[2].ty == t3 && r@[2].indexed == i3,
{
    let mut r: Vec<EventField> = Vec::new();
    r.push(EventField { name: name_bytes(n1), ty: t1, indexed: i1 });
    r.push(EventField { name: name_bytes(n2), ty: t2, indexed: i2 });
    r.push(EventField { name: name_bytes(n3), ty: t3, indexed: i3 });
    r
}

fn f4(n1: &str, t1: AbiType, i1: bool, n2: &str, t2: AbiType, i2: bool, n3: &str, t3: AbiType, i3: bool, n4: &str, t4: AbiType, i4: bool) -> (r: Vec<EventField>)
    ensures
        r@.len() == 4,
        r@[0].name@ == n1.spec_bytes() && r@[0].ty == t1 && r@[0].indexed == i1,
        r@[1].name@ == n2.spec_bytes() && r@[1].ty == t2 && r@[1].indexed == i2,
        r@[2].name@ == n3.spec_bytes() && r@[2].ty == t3 && r@[2].indexed == i3,
        r@[3].name@ == n4.spec_bytes() && r@[3].ty == t4 && r@[3].indexed == i4,
{
    let mut r: Vec<EventField> = Vec::new();
    r.push(EventField { name: name_bytes(n1), ty: t1, indexed: i1 });
    r.push(EventField { name: name_bytes(n2), ty: t2, indexed: i2 });
    r.push(EventField { name: name_bytes(n3), ty: t3, indexed: i3 });
    r.push(EventField { name: name_bytes(n4), ty: t4, indexed: i4 });
    r
}

/// Appending a schema that fits its slot extends a well-placed prefix.
proof fn step_calls(prev: Seq<Schema>, curr: Seq<Schema>, k: int)
    requires
        0 <= k,
        curr.len() == k + 1,
        prev.len() == k,
        forall|i: int| 0 <= i < k ==> curr[i] == prev[i],
        forall|i: int| 0 <= i < k ==> mailbox_call_at(#[trigger] prev[i], i),
        mailbox_call_at(curr[k], k),
    ensures
        forall|i: int| 0 <= i < k + 1 ==> mailbox_call_at(#[trigger] curr[i], i),
{
    assert forall|i: int| 0 <= i < k + 1 implies mailbox_call_at(#[trigger] curr[i], i) by {
        if i < k {
            assert(mailbox_call_at(prev[i], i));
        }
    }
}

/// Appending an event schema that fits its slot extends a well-placed
/// prefix.
proof fn step_events(prev: Seq<EventSchema>, curr: Seq<EventSchema>, k: int)
    requires
        0 <= k,
        curr.len() == k + 1,
        prev.len() == k,
        forall|i: int| 0 <= i < k ==> curr[i] == prev[i],
        forall|i: int| 0 <= i < k ==> mailbox_event_at(#[trigger] prev[i], i),
        mailbox_event_at(curr[k], k),
    ensures
        forall|i: int| 0 <= i < k + 1 ==> mailbox_event_at(#[trigger] curr[i], i),
{
    assert forall|i: int| 0 <= i < k + 1 implies mailbox_event_at(#[trigger] curr[i], i) by {
        if i < k {
            assert(mailbox_event_at(prev[i], i));
        }
    }
}

/// Register the first stretch of call schemas, in declaration order.
fn reg_calls_a(reg_m: &mut Mailbox)
    requires
        old(reg_m).calls.schemas@.len() == 0,
        forall|i: int| 0 <= i < 0 ==> mailbox_call_at(#[trigger] old(reg_m).calls.schemas@[i], i),
        crate::schema::registry_wf(old(reg_m).calls.schemas@),
    ensures
        final(reg_m).calls.schemas@.len() == 7,
        forall|i: int| 0 <= i < 7 ==> mailbox_call_at(#[trigger] final(reg_m).calls.schemas@[i], i),
        crate::schema::registry_wf(final(reg_m).calls.schemas@),
        final(reg_m).events == old(reg_m).events,
{
        let ghost prev0 = reg_m.calls.schemas@;
        match reg_m.calls.register(name_bytes("VERSION"), Vec::new(), out1(AbiType::Uint(8)), Mutability::ReadOnly) {
            Ok(_) => (),
            Err(_) => {
                proof {
                    assert(false);
                }
            },
        }
        proof {
            let s = reg_m.calls.schemas@.last();
            assert(param_tys(s.inputs@) =~= Seq::<AbiType>::empty());
            assert(mailbox_call_at(s, 0));
            step_calls(prev0, reg_m.calls.schemas@, 0);
        }
        let ghost prev1 = reg_m.calls.schemas@;
        match reg_m.calls.register(name_bytes("defaultHook"), Vec::new(), out1(AbiType::Address), Mutability::ReadOnly) {
            Ok(_) => (),
            Err(_) => {
                proof {
                    assert(false);
                }
            },
        }
        proof {
            let s = reg_m.calls.schemas@.last();
            assert(param_tys(s.inputs@) =~= Seq::<AbiType>::empty());
            assert(mailbox_call_at(s, 1));
            step_calls(prev1, reg_m.calls.schemas@, 1);
        }
        let ghost prev2 = reg_m.calls.schemas@;
        match reg_m.calls.register(name_bytes("defaultIsm"), Vec::new(), out1(AbiType::Address), Mutability::ReadOnly) {
            Ok(_) => (),
            Err(_) => {
                proof {
                    assert(false);
                }
            },
        }
        proof {
            let s = reg_m.calls.schemas@.last();
            assert(param_tys(s.inputs@) =~= Seq::<AbiType>::empty());
            assert(mailbox_call_at(s, 2));
            step_calls(prev2, reg_m.calls.schemas@, 2);
        }
        let ghost prev3 = reg_m.calls.schemas@;
        match reg_m.calls.register(name_bytes("delivered"), p1("_id", AbiType::FixedBytes(32)), out1(AbiType::Bool), Mutability::ReadOnly) {
            Ok(_) => (),
            Err(_) => {
                proof {
                    assert(false);
                }
            },
        }
        proof {
            let s = reg_m.calls.schemas@.last();
            assert(param_tys(s.inputs@) =~= tys_id());
            assert(mailbox_call_at(s, 3));
            step_calls(prev3, reg_m.calls.schemas@, 3);
        }
        let ghost prev4 = reg_m.calls.schemas@;
        match reg_m.calls.register(name_bytes("deployedBlock"), Vec::new(), out1(AbiType::Uint(256)), Mutability::ReadOnly) {
            Ok(_) => (),
            Err(_) => {
                proof {
                    assert(false);
                }
            },
        }
        proof {
            let s = reg_m.calls.schemas@.last();
            assert(param_tys(s.inputs@) =~= Seq::<AbiType>::empty());
            assert(mailbox_call_at(s, 4));
            step_calls(prev4, reg_m.calls.schemas@, 4);
        }
        let ghost prev5 = reg_m.calls.schemas@;
        match reg_m.calls.register(name_bytes("dispatch"), p5("destinationDomain", AbiType::Uint(32), "recipientAddress", AbiType::FixedBytes(32), "messageBody", AbiType::Bytes, "metadata", AbiType::Bytes, "hook", AbiType::Address), out1(AbiType::FixedBytes(32)), Mutability::Payable) {
            Ok(_) => (),
            Err(_) => {
                proof {
                    assert(false);
                }
            },
        }
        proof {
            let s = reg_m.calls.schemas@.last();
            assert(param_tys(s.inputs@) =~= tys_dispatch5());
            assert(mailbox_call_at(s, 5));
            step_calls(prev5, reg_m.calls.schemas@, 5);
        }
        let ghost prev6 = reg_m.calls.schemas@;
        match reg_m.calls.register(name_bytes("dispatch"), p4("destinationDomain", AbiType::Uint(32), "recipientAddress", AbiType::FixedBytes(32), "messageBody", AbiType::Bytes, "hookMetadata", AbiType::Bytes), out1(AbiType::FixedBytes(32)), Mutability::Payable) {
            Ok(_) => (),
            Err(_) => {
                proof {
                    assert(false);
                }
            },
        }
        proof {
            let s = reg_m.calls.schemas@.last();
            assert(param_tys(s.inputs@) =~= tys_dispatch4());
            assert(mailbox_call_at(s, 6));
            step_calls(prev6, reg_m.calls.schemas@, 6);
        }
}

/// Register the second stretch of call schemas.
fn reg_calls_b(reg_m: &mut Mailbox)
    requires
        old(reg_m).calls.schemas@.len() == 7,
        forall|i: int| 0 <= i < 7 ==> mailbox_call_at(#[trigger] old(reg_m).calls.schemas@[i], i),
        crate::schema::registry_wf(old(reg_m).calls.schemas@),
    ensures
        final(reg_m).calls.schemas@.len() == 14,
        forall|i: int| 0 <= i < 14 ==> mailbox_call_at(#[trigger] final(reg_m).calls.schemas@[i], i),
        crate::schema::registry_wf(final(reg_m).calls.schemas@),
        final(reg_m).events == old(reg_m).events,
{
        let ghost prev7 = reg_m.calls.schemas@;
        match reg_m.calls.register(name_bytes("dispatch"), p3("_destinationDomain", AbiType::Uint(32), "_recipientAddress", AbiType::FixedBytes(32), "_messageBody", AbiType::Bytes), out1(AbiType::FixedBytes(32)), Mutability::Payable) {
            Ok(_) => (),
            Err(_) => {
                proof {
                    assert(false);
                }
            },
        }
        proof {
            let s = reg_m.calls.schemas@.last();
            assert(param_tys(s.inputs@) =~= tys_dispatch3());
            assert(mailbox_call_at(s, 7));
            step_calls(prev7, reg_m.calls.schemas@, 7);
        }
        let ghost prev8 = reg_m.calls.schemas@;
        match reg_m.calls.register(name_bytes("initialize"), p4("_owner", AbiType::Address, "_defaultIsm", AbiType::Address, "_defaultHook", AbiType::Address, "_requiredHook", AbiType::Address), out0(), Mutability::StateChanging) {
            Ok(_) => (),
            Err(_) => {
                proof {
                    assert(false);
                }
            },
        }
        proof {
            let s = reg_m.calls.schemas@.last();
            assert(param_tys(s.inputs@) =~= tys_init());
            assert(mailbox_call_at(s, 8));
            step_calls(prev8, reg_m.calls.schemas@, 8);
        }
        let ghost prev9 = reg_m.calls.schemas@;
        match reg_m.calls.register(name_bytes("latestDispatchedId"), Vec::new(), out1(AbiType::FixedBytes(32)), Mutability::ReadOnly) {
            Ok(_) => (),
            Err(_) => {
                proof {
                    assert(false);
                }
            },
        }
        proof {
            let s = reg_m.calls.schemas@.last();
            assert(param_tys(s.inputs@) =~= Seq::<AbiType>::empty());
            assert(mailbox_call_at(s, 9));
            step_calls(prev9, reg_m.calls.schemas@, 9);
        }
        let ghost prev10 = reg_m.calls.schemas@;
        match reg_m.calls.register(name_bytes("localDomain"), Vec::new(), out1(AbiType::Uint(32)), Mutability::ReadOnly) {
            Ok(_) => (),
            Err(_) => {
                proof {
                    assert(false);
                }
            },
        }
        proof {
            let s = reg_m.calls.schemas@.last();
            assert(param_tys(s.inputs@) =~= Seq::<AbiType>::empty());
            assert(mailbox_call_at(s, 10));
            step_calls(prev10, reg_m.calls.schemas@, 10);
        }
        let ghost prev11 = reg_m.calls.schemas@;
        match reg_m.calls.register(name_bytes("nonce"), Vec::new(), out1(AbiType::Uint(32)), Mutability::ReadOnly) {
            Ok(_) => (),
            Err(_) => {
                proof {
                    assert(false);
                }
            },
        }
        proof {
            let s = reg_m.calls.schemas@.last();
            assert(param_tys(s.inputs@) =~= Seq::<AbiType>::empty());
            assert(mailbox_call_at(s, 11));
            step_calls(prev11, reg_m.calls.schemas@, 11);
        }
        let ghost prev12 = reg_m.calls.schemas@;
        match reg_m.calls.register(name_bytes("owner"), Vec::new(), out1(AbiType::Address), Mutability::ReadOnly) {
            Ok(_) => (),
            Err(_) => {
                proof {
                    assert(false);
                }
            },
        }
        proof {
            let s = reg_m.calls.schemas@.last();
            assert(param_tys(s.inputs@) =~= Seq::<AbiType>::empty());
            assert(mailbox_call_at(s, 12));
            step_calls(prev12, reg_m.calls.schemas@, 12);
        }
        let ghost prev13 = reg_m.calls.schemas@;
        match reg_m.calls.register(name_bytes("process"), p2("_metadata", AbiType::Bytes, "_message", AbiType::Bytes), out0(), Mutability::Payable) {
            Ok(_) => (),
            Err(_) => {
                proof {
                    assert(false);
                }
            },
        }
        proof {
            let s = reg_m.calls.schemas@.last();
            assert(param_tys(s.inputs@) =~= tys_process());
            assert(mailbox_call_at(s, 13));
            step_calls(prev13, reg_m.calls.schemas@, 13);
        }
}

/// Register the third stretch of call schemas.
fn reg_calls_c(reg_m: &mut Mailbox)
    requires
        old(reg_m).calls.schemas@.len() == 14,
        forall|i: int| 0 <= i < 14 ==> mailbox_call_at(#[trigger] old(reg_m).calls.schemas@[i], i),
        crate::schema::registry_wf(old(reg_m).calls.schemas@),
    ensures
        final(reg_m).calls.schemas@.len() == 20,
        forall|i: int| 0 <= i < 20 ==> mailbox_call_at(#[trigger] final(reg_m).calls.schemas@[i], i),
        crate::schema::registry_wf(final(reg_m).calls.schemas@),
        final(reg_m).events == old(reg_m).events,
{
        let ghost prev14 = reg_m.calls.schemas@;
        match reg_m.calls.register(name_bytes("processedAt"), p1("_id", AbiType::FixedBytes(32)), out1(AbiType::Uint(48)), Mutability::ReadOnly) {
            Ok(_) => (),
            Err(_) => {
                proof {
                    assert(false);
                }
            },
        }
        proof {
            let s = reg_m.calls.schemas@.last();
            assert(param_tys(s.inputs@) =~= tys_id());
            assert(mailbox_call_at(s, 14));
            step_calls(prev14, reg_m.calls.schemas@, 14);
        }
        let ghost prev15 = reg_m.calls.schemas@;
        match reg_m.calls.register(name_bytes("processor"), p1("_id", AbiType::FixedBytes(32)), out1(AbiType::Address), Mutability::ReadOnly) {
            Ok(_) => (),
            Err(_) => {
                proof {
                    assert(false);
                }
            },
        }
        proof {
            let s = reg_m.calls.schemas@.last();
            assert(param_tys(s.inputs@) =~= tys_id());
            assert(mailbox_call_at(s, 15));
            step_calls(prev15, reg_m.calls.schemas@, 15);
        }
        let ghost prev16 = reg_m.calls.schemas@;
        match reg_m.calls.register(name_bytes("quoteDispatch"), p5("destinationDomain", AbiType::Uint(32), "recipientAddress", AbiType::FixedBytes(32), "messageBody", AbiType::Bytes, "metadata", AbiType::Bytes, "hook", AbiType::Address), out1(AbiType::Uint(256)), Mutability::ReadOnly) {
            Ok(_) => (),
            Err(_) => {
                proof {
                    assert(false);
                }
            },
        }
        proof {
            let s = reg_m.calls.schemas@.last();
            assert(param_tys(s.inputs@) =~= tys_dispatch5());
            assert(mailbox_call_at(s, 16));
            step_calls(prev16, reg_m.calls.schemas@, 16);
        }
        let ghost prev17 = reg_m.calls.schemas@;
        match reg_m.calls.register(name_bytes("quoteDispatch"), p3("destinationDomain", AbiType::Uint(32), "recipientAddress", AbiType::FixedBytes(32), "messageBody", AbiType::Bytes), out1(AbiType::Uint(256)), Mutability::ReadOnly) {
            Ok(_) => (),
            Err(_) => {
                proof {
                    assert(false);
                }
            },
        }
        proof {
            let s = reg_m.calls.schemas@.last();
            assert(param_tys(s.inputs@) =~= tys_dispatch3());
            assert(mailbox_call_at(s, 17));
            step_calls(prev17, reg_m.calls.schemas@, 17);
        }
        let ghost prev18 = reg_m.calls.schemas@;
        match reg_m.calls.register(name_bytes("quoteDispatch"), p4("destinationDomain", AbiType::Uint(32), "recipientAddress", AbiType::FixedBytes(32), "messageBody", AbiType::Bytes, "defaultHookMetadata", AbiType::Bytes), out1(AbiType::Uint(256)), Mutability::ReadOnly) {
            Ok(_) => (),
            Err(_) => {
                proof {
                    assert(false);
                }
            },
        }
        proof {
            let s = reg_m.calls.schemas@.last();
            assert(param_tys(s.inputs@) =~= tys_dispatch4());
            assert(mailbox_call_at(s, 18));
            step_calls(prev18, reg_m.calls.schemas@, 18);
        }
        let ghost prev19 = reg_m.calls.schemas@;
        match reg_m.calls.register(name_bytes("recipientIsm"), p1("_recipient", AbiType::Address), out1(AbiType::Address), Mutability::ReadOnly) {
            Ok(_) => (),
            Err(_) => {
                proof {
                    assert(false);
                }
            },
        }
        proof {
            let s = reg_m.calls.schemas@.last();
            assert(param_tys(s.inputs@) =~= tys_addr());
            assert(mailbox_call_at(s, 19));
            step_calls(prev19, reg_m.calls.schemas@, 19);
        }
}

/// Register the last stretch of call schemas.
fn reg_calls_d(reg_m: &mut Mailbox)
    requires
        old(reg_m).calls.schemas@.len() == 20,
        forall|i: int| 0 <= i < 20 ==> mailbox_call_at(#[trigger] old(reg_m).calls.schemas@[i], i),
        crate::schema::registry_wf(old(reg_m).calls.schemas@),
    ensures
        final(reg_m).calls.schemas@.len() == 26,
        forall|i: int| 0 <= i < 26 ==> mailbox_call_at(#[trigger] final(reg_m).calls.schemas@[i], i),
        crate::schema::registry_wf(final(reg_m).calls.schemas@),
        final(reg_m).events == old(reg_m).events,
{
        let ghost prev20 = reg_m.calls.schemas@;
        match reg_m.calls.register(name_bytes("renounceOwnership"), Vec::new(), out0(), Mutability::StateChanging) {
            Ok(_) => (),
            Err(_) => {
                proof {
                    assert(false);
                }
            },
        }
        proof {
            let s = reg_m.calls.schemas@.last();
            assert(param_tys(s.inputs@) =~= Seq::<AbiType>::empty());
            assert(mailbox_call_at(s, 20));
            step_calls(prev20, reg_m.calls.schemas@, 20);
        }
        let ghost prev21 = reg_m.calls.schemas@;
        match reg_m.calls.register(name_bytes("requiredHook"), Vec::new(), out1(AbiType::Address), Mutability::ReadOnly) {
            Ok(_) => (),
            Err(_) => {
                proof {
                    assert(false);
                }
            },
        }
        proof {
            let s = reg_m.calls.schemas@.last();
            assert(param_tys(s.inputs@) =~= Seq::<AbiType>::empty());
            assert(mailbox_call_at(s, 21));
            step_calls(prev21, reg_m.calls.schemas@, 21);
        }
        let ghost prev22 = reg_m.calls.schemas@;
        match reg_m.calls.register(name_bytes("setDefaultHook"), p1("_hook", AbiType::Address), out0(), Mutability::StateChanging) {
            Ok(_) => (),
            Err(_) => {
                proof {
                    assert(false);
                }
            },
        }
        proof {
            let s = reg_m.calls.schemas@.last();
            assert(param_tys(s.inputs@) =~= tys_addr());
            assert(mailbox_call_at(s, 22));
            step_calls(prev22, reg_m.calls.schemas@, 22);
        }
        let ghost prev23 = reg_m.calls.schemas@;
        match reg_m.calls.register(name_bytes("setDefaultIsm"), p1("_module", AbiType::Address), out0(), Mutability::StateChanging) {
            Ok(_) => (),
            Err(_) => {
                proof {
                    assert(false);
                }
            },
        }
        proof {
            let s = reg_m.calls.schemas@.last();
            assert(param_tys(s.inputs@) =~= tys_addr());
            assert(mailbox_call_at(s, 23));
            step_calls(prev23, reg_m.calls.schemas@, 23);
        }
        let ghost prev24 = reg_m.calls.schemas@;
        match reg_m.calls.register(name_bytes("setRequiredHook"), p1("_hook", AbiType::Address), out0(), Mutability::StateChanging) {
            Ok(_) => (),
            Err(_) => {
                proof {
                    assert(false);
                }
            },
        }
        proof {
            let s = reg_m.calls.schemas@.last();
            assert(param_tys(s.inputs@) =~= tys_addr());
            assert(mailbox_call_at(s, 24));
            step_calls(prev24, reg_m.calls.schemas@, 24);
        }
        let ghost prev25 = reg_m.calls.schemas@;
        match reg_m.calls.register(name_bytes("transferOwnership"), p1("newOwner", AbiType::Address), out0(), Mutability::StateChanging) {
            Ok(_) => (),
            Err(_) => {
                proof {
                    assert(false);
                }
            },
        }
        proof {
            let s = reg_m.calls.schemas@.last();
            assert(param_tys(s.inputs@) =~= tys_addr());
            assert(mailbox_call_at(s, 25));
            step_calls(prev25, reg_m.calls.schemas@, 25);
        }
}

/// Register the first stretch of event schemas, in declaration order.
fn reg_events_a(reg_m: &mut Mailbox)
    requires
        old(reg_m).events.events@.len() == 0,
        forall|i: int| 0 <= i < 0 ==> mailbox_event_at(#[trigger] old(reg_m).events.events@[i], i),
        crate::schema::event_registry_wf(old(reg_m).events.events@),
    ensures
        final(reg_m).events.events@.len() == 5,
        forall|i: int| 0 <= i < 5 ==> mailbox_event_at(#[trigger] final(reg_m).events.events@[i], i),
        crate::schema::event_registry_wf(final(reg_m).events.events@),
        final(reg_m).calls == old(reg_m).calls,
{
        let ghost eprev0 = reg_m.events.events@;
        match reg_m.events.register(name_bytes("DefaultHookSet"), f1("hook", AbiType::Address, true)) {
            Ok(_) => (),
            Err(_) => {
                proof {
                    assert(false);
                }
            },
        }
        proof {
            let s = reg_m.events.events@.last();
            assert(field_tys(s.fields@) =~= tys_addr());
            assert(mailbox_event_at(s, 0));
            step_events(eprev0, reg_m.events.events@, 0);
        }
        let ghost eprev1 = reg_m.events.events@;
        match reg_m.events.register(name_bytes("DefaultIsmSet"), f1("module", AbiType::Address, true)) {
            Ok(_) => (),
            Err(_) => {
                proof {
                    assert(false);
                }
            },
        }
        proof {
            let s = reg_m.events.events@.last();
            assert(field_tys(s.fields@) =~= tys_addr());
            assert(mailbox_event_at(s, 1));
            step_events(eprev1, reg_m.events.events@, 1);
        }
        let ghost eprev2 = reg_m.events.events@;
        match reg_m.events.register(name_bytes("Dispatch"), f4("sender", AbiType::Address, true, "destination", AbiType::Uint(32), true, "recipient", AbiType::FixedBytes(32), true, "message", AbiType::Bytes, false)) {
            Ok(_) => (),
            Err(_) => {
                proof {
                    assert(false);
                }
            },
        }
        proof {
            let s = reg_m.events.events@.last();
            assert(field_tys(s.fields@) =~= ev_dispatch_tys());
            assert(mailbox_event_at(s, 2));
            step_events(eprev2, reg_m.events.events@, 2);
        }
        let ghost eprev3 = reg_m.events.events@;
        match reg_m.events.register(name_bytes("DispatchId"), f1("messageId", AbiType::FixedBytes(32), true)) {
            Ok(_) => (),
            Err(_) => {
                proof {
                    assert(false);
                }
            },
        }
        proof {
            let s = reg_m.events.events@.last();
            assert(field_tys(s.fields@) =~= tys_id());
            assert(mailbox_event_at(s, 3));
            step_events(eprev3, reg_m.events.events@, 3);
        }
        let ghost eprev4 = reg_m.events.events@;
        match reg_m.events.register(name_bytes("Initialized"), f1("version", AbiType::Uint(8), false)) {
            Ok(_) => (),
            Err(_) => {
                proof {
                    assert(false);
                }
            },
        }
        proof {
            let s = reg_m.events.events@.last();
            assert(field_tys(s.fields@) =~= seq![AbiType::Uint(8)]);
            assert(mailbox_event_at(s, 4));
            step_events(eprev4, reg_m.events.events@, 4);
        }
}

/// Register the last stretch of event schemas.
fn reg_events_b(reg_m: &mut Mailbox)
    requires
        old(reg_m).events.events@.len() == 5,
        forall|i: int| 0 <= i < 5 ==> mailbox_event_at(#[trigger] old(reg_m).events.events@[i], i),
        crate::schema::event_registry_wf(old(reg_m).events.events@),
    ensures
        final(reg_m).events.events@.len() == 9,
        forall|i: int| 0 <= i < 9 ==> mailbox_event_at(#[trigger] final(reg_m).events.events@[i], i),
        crate::schema::event_registry_wf(final(reg_m).events.events@),
        final(reg_m).calls == old(reg_m).calls,
{
        let ghost eprev5 = reg_m.events.events@;
        match reg_m.events.register(name_bytes("OwnershipTransferred"), f2("previousOwner", AbiType::Address, true, "newOwner", AbiType::Address, true)) {
            Ok(_) => (),
            Err(_) => {
                proof {
                    assert(false);
                }
            },
        }
        proof {
            let s = reg_m.events.events@.last();
            assert(field_tys(s.fields@) =~= seq![AbiType::Address, AbiType::Address]);
            assert(mailbox_event_at(s, 5));
            step_events(eprev5, reg_m.events.events@, 5);
        }
        let ghost eprev6 = reg_m.events.events@;
        match reg_m.events.register(name_bytes("Process"), f3("origin", AbiType::Uint(32), true, "sender", AbiType::FixedBytes(32), true, "recipient", AbiType::Address, true)) {
            Ok(_) => (),
            Err(_) => {
                proof {
                    assert(false);
                }
            },
        }
        proof {
            let s = reg_m.events.events@.last();
            assert(field_tys(s.fields@) =~= ev_process_tys());
            assert(mailbox_event_at(s, 6));
            step_events(eprev6, reg_m.events.events@, 6);
        }
        let ghost eprev7 = reg_m.events.events@;
        match reg_m.events.register(name_bytes("ProcessId"), f1("messageId", AbiType::FixedBytes(32), true)) {
            Ok(_) => (),
            Err(_) => {
                proof {
                    assert(false);
                }
            },
        }
        proof {
            let s = reg_m.events.events@.last();
            assert(field_tys(s.fields@) =~= tys_id());
            assert(mailbox_event_at(s, 7));
            step_events(eprev7, reg_m.events.events@, 7);
        }
        let ghost eprev8 = reg_m.events.events@;
        match reg_m.events.register(name_bytes("RequiredHookSet"), f1("hook", AbiType::Address, true)) {
            Ok(_) => (),
            Err(_) => {
                proof {
                    assert(false);
                }
            },
        }
        proof {
            let s = reg_m.events.events@.last();
            assert(field_tys(s.fields@) =~= tys_addr());
            assert(mailbox_event_at(s, 8));
            step_events(eprev8, reg_m.events.events@, 8);
        }
}

/// The Mailbox binding: the contract's call and event schema tables,
/// built once and read-only thereafter.
#[derive(Debug)]
pub struct Mailbox {
    pub calls: SchemaRegistry,
    pub events: EventRegistry,
}

impl Mailbox {
    /// The registries hold exactly the Mailbox interface, in declaration
    /// order, and every schema is well formed.
    pub open spec fn wf(&self) -> bool {
        &&& is_mailbox_calls(self.calls.schemas@)
        &&& is_mailbox_events(self.events.events@)
        &&& crate::schema::registry_wf(self.calls.schemas@)
        &&& crate::schema::event_registry_wf(self.events.events@)
    }

    /// Build the Mailbox schema tables. Every call to this initializer
    /// produces a registry with identical content, entry for entry.
    pub fn new() -> (r: Self)
        ensures
            r.wf(),
    {
        let mut m = Mailbox { calls: SchemaRegistry::new(), events: EventRegistry::new() };
        reg_calls_a(&mut m);
        reg_calls_b(&mut m);
        reg_calls_c(&mut m);
        reg_calls_d(&mut m);
        reg_events_a(&mut m);
        reg_events_b(&mut m);
        m
    }
}


/// Two schemas with the same pinned shape are the same, value for
/// value, in every observable part.
pub open spec fn schema_like(a: Schema, b: Schema) -> bool {
    &&& a.name@ == b.name@
    &&& a.selector@ == b.selector@
    &&& a.mutability == b.mutability
    &&& a.outputs@ == b.outputs@
    &&& a.inputs@.len() == b.inputs@.len()
    &&& forall|j: int|
        0 <= j < a.inputs@.len() ==> (#[trigger] a.inputs@[j]).name@ == b.inputs@[j].name@
            && a.inputs@[j].ty == b.inputs@[j].ty
}

/// Two event schemas with the same pinned shape are the same, value for
/// value, in every observable part.
pub open spec fn event_like(a: EventSchema, b: EventSchema) -> bool {
    &&& a.name@ == b.name@
    &&& a.topic0@ == b.topic0@
    &&& a.fields@.len() == b.fields@.len()
    &&& forall|j: int|
        0 <= j < a.fields@.len() ==> (#[trigger] a.fields@[j]).name@ == b.fields@[j].name@
            && a.fields@[j].ty == b.fields@[j].ty && a.fields@[j].indexed == b.fields@[j].indexed
}

/// Repeated initialization drifts nowhere: any two registries built by
/// the lazy initializer are structurally identical, entry for entry.
pub proof fn lemma_initializer_idempotent(a: Mailbox, b: Mailbox)
    requires
        a.wf(),
        b.wf(),
    ensures
        a.calls.schemas@.len() == b.calls.schemas@.len(),
        forall|i: int|
            0 <= i < a.calls.schemas@.len() ==> schema_like(
                #[trigger] a.calls.schemas@[i],
                b.calls.schemas@[i],
            ),
        a.events.events@.len() == b.events.events@.len(),
        forall|i: int|
            0 <= i < a.events.events@.len() ==> event_like(
                #[trigger] a.events.events@[i],
                b.events.events@[i],
            ),
{
    assert forall|i: int| 0 <= i < a.calls.schemas@.len() implies schema_like(
        #[trigger] a.calls.schemas@[i],
        b.calls.schemas@[i],
    ) by {
        assert(mailbox_call_at(a.calls.schemas@[i], i));
        assert(mailbox_call_at(b.calls.schemas@[i], i));
    }
    assert forall|i: int| 0 <= i < a.events.events@.len() implies event_like(
        #[trigger] a.events.events@[i],
        b.events.events@[i],
    ) by {
        assert(mailbox_event_at(a.events.events@[i], i));
        assert(mailbox_event_at(b.events.events@[i], i));
    }
}


pub open spec fn args_id(id: Seq<u8>) -> Seq<ValModel> {
    seq![ValModel::FixedBytes(id)]
}

pub open spec fn args_addr(a: Seq<u8>) -> Seq<ValModel> {
    seq![ValModel::Address(a)]
}

pub open spec fn args_dispatch3(dd: u32, ra: Seq<u8>, mb: Seq<u8>) -> Seq<ValModel> {
    seq![ValModel::Uint(be_bytes(dd as nat, 4)), ValModel::FixedBytes(ra), ValModel::Bytes(mb)]
}

pub open spec fn args_dispatch4(dd: u32, ra: Seq<u8>, mb: Seq<u8>, md: Seq<u8>) -> Seq<ValModel> {
    seq![
        ValModel::Uint(be_bytes(dd as nat, 4)),
        ValModel::FixedBytes(ra),
        ValModel::Bytes(mb),
        ValModel::Bytes(md),
    ]
}

pub open spec fn args_dispatch5(dd: u32, ra: Seq<u8>, mb: Seq<u8>, md: Seq<u8>, hk: Seq<u8>) -> Seq<
    ValModel,
> {
    seq![
        ValModel::Uint(be_bytes(dd as nat, 4)),
        ValModel::FixedBytes(ra),
        ValModel::Bytes(mb),
        ValModel::Bytes(md),
        ValModel::Address(hk),
    ]
}

pub open spec fn args_init(a: Seq<u8>, b: Seq<u8>, c: Seq<u8>, d: Seq<u8>) -> Seq<ValModel> {
    seq![ValModel::Address(a), ValModel::Address(b), ValModel::Address(c), ValModel::Address(d)]
}

pub open spec fn args_process(m1: Seq<u8>, m2: Seq<u8>) -> Seq<ValModel> {
    seq![ValModel::Bytes(m1), ValModel::Bytes(m2)]
}

/// A `uint32` argument value.
fn u32_value(x: u32) -> (r: AbiValue)
    ensures
        r@ == ValModel::Uint(be_bytes(x as nat, 4)),
{
    AbiValue::Uint(crate::encode::be_bytes_x(x as usize, 4))
}

/// Selector-prefixed calldata for one schema: the 4 selector bytes of
/// the canonical signature, then the encoded argument block.
fn build_call(name: &Vec<u8>, ts: Vec<AbiType>, vs: Vec<AbiValue>) -> (r: Result<
    Vec<u8>,
    EncodingError,
>)
    ensures
        r matches Ok(b) ==> tys_valid(ts@) && fields_match(vals_model(vs@), ts@) && b@
            == selector_of(name@, ts@) + enc_params(ts@, vals_model(vs@)),
        r == Err::<Vec<u8>, EncodingError>(EncodingError::ShapeMismatch) <==> !(tys_valid(ts@)
            && fields_match(vals_model(vs@), ts@)),
        r == Err::<Vec<u8>, EncodingError>(EncodingError::TooLong) <==> tys_valid(ts@)
            && fields_match(vals_model(vs@), ts@) && 4 + enc_params(ts@, vals_model(vs@)).len()
            > usize::MAX,
{
    match crate::encode::encode_params(&ts, &vs) {
        Ok(body) => {
            if usize::MAX - 4 < body.len() {
                return Err(EncodingError::TooLong);
            }
            let mut out = crate::keccak::selector_x(name, &ts);
            let mut body_owned = body;
            out.append(&mut body_owned);
            Ok(out)
        },
        Err(er) => Err(er),
    }
}


/// Calldata for a schema with no inputs.
fn call_nullary(name: &Vec<u8>) -> (r: Result<Vec<u8>, EncodingError>)
    ensures
        r matches Ok(b) ==> b@ == selector_of(name@, Seq::<AbiType>::empty()) + enc_params(
            Seq::<AbiType>::empty(),
            Seq::<ValModel>::empty(),
        ),
        r is Ok,
{
    let ts: Vec<AbiType> = Vec::new();
    let vs: Vec<AbiValue> = Vec::new();
    proof {
        assert(ts@ =~= Seq::<AbiType>::empty());
        assert(vals_model(vs@) =~= Seq::<ValModel>::empty());
        assert(tys_valid(ts@));
        assert(fields_match(vals_model(vs@), ts@));
        assert(crate::types::heads_len(ts@) == 0);
        assert(enc_params(ts@, vals_model(vs@)) =~= Seq::<u8>::empty());
        assert(enc_params(ts@, vals_model(vs@)).len() == 0);
    }
    match build_call(name, ts, vs) {
        Ok(b) => Ok(b),
        Err(er) => {
            proof {
                assert(false);
            }
            Err(er)
        },
    }
}

/// Calldata for a schema taking one `bytes32` identifier.
fn call_id(name: &Vec<u8>, id: &Vec<u8>) -> (r: Result<Vec<u8>, EncodingError>)
    ensures
        r matches Ok(b) ==> id@.len() == 32 && b@ == selector_of(name@, tys_id()) + enc_params(
            tys_id(),
            args_id(id@),
        ),
        r == Err::<Vec<u8>, EncodingError>(EncodingError::ShapeMismatch) <==> id@.len() != 32,
        r == Err::<Vec<u8>, EncodingError>(EncodingError::TooLong) <==> id@.len() == 32 && 4
            + enc_params(tys_id(), args_id(id@)).len() > usize::MAX,
{
    let mut ts: Vec<AbiType> = Vec::new();
    ts.push(AbiType::FixedBytes(32));
    let mut vs: Vec<AbiValue> = Vec::new();
    vs.push(AbiValue::FixedBytes(bytes_dup(id)));
    proof {
        assert(ts@ =~= tys_id());
        crate::value::lemma_vals_model(vs@);
        assert(vals_model(vs@) =~= args_id(id@));
        assert(tys_valid(ts@));
        if id@.len() == 32 {
            assert(crate::value::val_matches(vals_model(vs@)[0], ts@[0]));
            assert(fields_match(vals_model(vs@), ts@));
        } else {
            assert(!crate::value::val_matches(vals_model(vs@)[0], ts@[0]));
            assert(!fields_match(vals_model(vs@), ts@));
        }
    }
    build_call(name, ts, vs)
}

/// Calldata for a schema taking one `address`.
fn call_addr(name: &Vec<u8>, a: &Vec<u8>) -> (r: Result<Vec<u8>, EncodingError>)
    ensures
        r matches Ok(b) ==> a@.len() == 20 && b@ == selector_of(name@, tys_addr()) + enc_params(
            tys_addr(),
            args_addr(a@),
        ),
        r == Err::<Vec<u8>, EncodingError>(EncodingError::ShapeMismatch) <==> a@.len() != 20,
        r == Err::<Vec<u8>, EncodingError>(EncodingError::TooLong) <==> a@.len() == 20 && 4
            + enc_params(tys_addr(), args_addr(a@)).len() > usize::MAX,
{
    let mut ts: Vec<AbiType> = Vec::new();
    ts.push(AbiType::Address);
    let mut vs: Vec<AbiValue> = Vec::new();
    vs.push(AbiValue::Address(bytes_dup(a)));
    proof {
        assert(ts@ =~= tys_addr());
        crate::value::lemma_vals_model(vs@);
        assert(vals_model(vs@) =~= args_addr(a@));
        assert(tys_valid(ts@));
        if a@.len() == 20 {
            assert(crate::value::val_matches(vals_model(vs@)[0], ts@[0]));
            assert(fields_match(vals_model(vs@), ts@));
        } else {
            assert(!crate::value::val_matches(vals_model(vs@)[0], ts@[0]));
            assert(!fields_match(vals_model(vs@), ts@));
        }
    }
    build_call(name, ts, vs)
}

/// Calldata for a `(uint32,bytes32,bytes)` schema.
fn call_d3(name: &Vec<u8>, dd: u32, ra: &Vec<u8>, mb: &Vec<u8>) -> (r: Result<
    Vec<u8>,
    EncodingError,
>)
    ensures
        r matches Ok(b) ==> ra@.len() == 32 && b@ == selector_of(name@, tys_dispatch3())
            + enc_params(tys_dispatch3(), args_dispatch3(dd, ra@, mb@)),
        r == Err::<Vec<u8>, EncodingError>(EncodingError::ShapeMismatch) <==> ra@.len() != 32,
        r == Err::<Vec<u8>, EncodingError>(EncodingError::TooLong) <==> ra@.len() == 32 && 4
            + enc_params(tys_dispatch3(), args_dispatch3(dd, ra@, mb@)).len() > usize::MAX,
{
    let mut ts: Vec<AbiType> = Vec::new();
    ts.push(AbiType::Uint(32));
    ts.push(AbiType::FixedBytes(32));
    ts.push(AbiType::Bytes);
    let mut vs: Vec<AbiValue> = Vec::new();
    vs.push(u32_value(dd));
    vs.push(AbiValue::FixedBytes(bytes_dup(ra)));
    vs.push(AbiValue::Bytes(bytes_dup(mb)));
    proof {
        assert(ts@ =~= tys_dispatch3());
        crate::value::lemma_vals_model(vs@);
        assert(vals_model(vs@) =~= args_dispatch3(dd, ra@, mb@));
        assert(tys_valid(ts@));
        lemma_be_bytes_len(dd as nat, 4);
        if ra@.len() == 32 {
            assert(crate::value::val_matches(vals_model(vs@)[0], ts@[0]));
            assert(crate::value::val_matches(vals_model(vs@)[1], ts@[1]));
            assert(crate::value::val_matches(vals_model(vs@)[2], ts@[2]));
            assert(fields_match(vals_model(vs@), ts@)) by {
                assert forall|j: int|
                    0 <= j < ts@.len() implies crate::value::val_matches(
                    vals_model(vs@)[j],
                    #[trigger] ts@[j],
                ) by {
                    if j == 0 {
                    } else if j == 1 {
                    } else {
                        assert(j == 2);
                    }
                }
            }
        } else {
            assert(!crate::value::val_matches(vals_model(vs@)[1], ts@[1]));
            assert(!fields_match(vals_model(vs@), ts@));
        }
    }
    build_call(name, ts, vs)
}

/// Calldata for a `(uint32,bytes32,bytes,bytes)` schema.
fn call_d4(name: &Vec<u8>, dd: u32, ra: &Vec<u8>, mb: &Vec<u8>, md: &Vec<u8>) -> (r: Result<
    Vec<u8>,
    EncodingError,
>)
    ensures
        r matches Ok(b) ==> ra@.len() == 32 && b@ == selector_of(name@, tys_dispatch4())
            + enc_params(tys_dispatch4(), args_dispatch4(dd, ra@, mb@, md@)),
        r == Err::<Vec<u8>, EncodingError>(EncodingError::ShapeMismatch) <==> ra@.len() != 32,
        r == Err::<Vec<u8>, EncodingError>(EncodingError::TooLong) <==> ra@.len() == 32 && 4
            + enc_params(tys_dispatch4(), args_dispatch4(dd, ra@, mb@, md@)).len() > usize::MAX,
{
    let mut ts: Vec<AbiType> = Vec::new();
    ts.push(AbiType::Uint(32));
    ts.push(AbiType::FixedBytes(32));
    ts.push(AbiType::Bytes);
    ts.push(AbiType::Bytes);
    let mut vs: Vec<AbiValue> = Vec::new();
    vs.push(u32_value(dd));
    vs.push(AbiValue::FixedBytes(bytes_dup(ra)));
    vs.push(AbiValue::Bytes(bytes_dup(mb)));
    vs.push(AbiValue::Bytes(bytes_dup(md)));
    proof {
        assert(ts@ =~= tys_dispatch4());
        crate::value::lemma_vals_model(vs@);
        assert(vals_model(vs@) =~= args_dispatch4(dd, ra@, mb@, md@));
        assert(tys_valid(ts@));
        lemma_be_bytes_len(dd as nat, 4);
        if ra@.len() == 32 {
            assert(fields_match(vals_model(vs@), ts@)) by {
                assert forall|j: int|
                    0 <= j < ts@.len() implies crate::value::val_matches(
                    vals_model(vs@)[j],
                    #[trigger] ts@[j],
                ) by {
                    assert(0 <= j < 4);
                }
            }
        } else {
            assert(!crate::value::val_matches(vals_model(vs@)[1], ts@[1]));
            assert(!fields_match(vals_model(vs@), ts@));
        }
    }
    build_call(name, ts, vs)
}

/// Calldata for a `(uint32,bytes32,bytes,bytes,address)` schema.
fn call_d5(name: &Vec<u8>, dd: u32, ra: &Vec<u8>, mb: &Vec<u8>, md: &Vec<u8>, hk: &Vec<u8>) -> (r:
    Result<Vec<u8>, EncodingError>)
    ensures
        r matches Ok(b) ==> ra@.len() == 32 && hk@.len() == 20 && b@ == selector_of(
            name@,
            tys_dispatch5(),
        ) + enc_params(tys_dispatch5(), args_dispatch5(dd, ra@, mb@, md@, hk@)),
        r == Err::<Vec<u8>, EncodingError>(EncodingError::ShapeMismatch) <==> !(ra@.len() == 32
            && hk@.len() == 20),
        r == Err::<Vec<u8>, EncodingError>(EncodingError::TooLong) <==> ra@.len() == 32
            && hk@.len() == 20 && 4 + enc_params(
            tys_dispatch5(),
            args_dispatch5(dd, ra@, mb@, md@, hk@),
        ).len() > usize::MAX,
{
    let mut ts: Vec<AbiType> = Vec::new();
    ts.push(AbiType::Uint(32));
    ts.push(AbiType::FixedBytes(32));
    ts.push(AbiType::Bytes);
    ts.push(AbiType::Bytes);
    ts.push(AbiType::Address);
    let mut vs: Vec<AbiValue> = Vec::new();
    vs.push(u32_value(dd));
    vs.push(AbiValue::FixedBytes(bytes_dup(ra)));
    vs.push(AbiValue::Bytes(bytes_dup(mb)));
    vs.push(AbiValue::Bytes(bytes_dup(md)));
    vs.push(AbiValue::Address(bytes_dup(hk)));
    proof {
        assert(ts@ =~= tys_dispatch5());
        crate::value::lemma_vals_model(vs@);
        assert(vals_model(vs@) =~= args_dispatch5(dd, ra@, mb@, md@, hk@));
        assert(tys_valid(ts@));
        lemma_be_bytes_len(dd as nat, 4);
        if ra@.len() == 32 && hk@.len() == 20 {
            assert(fields_match(vals_model(vs@), ts@)) by {
                assert forall|j: int|
                    0 <= j < ts@.len() implies crate::value::val_matches(
                    vals_model(vs@)[j],
                    #[trigger] ts@[j],
                ) by {
                    assert(0 <= j < 5);
                }
            }
        } else {
            if ra@.len() != 32 {
                assert(!crate::value::val_matches(vals_model(vs@)[1], ts@[1]));
            } else {
                assert(!crate::value::val_matches(vals_model(vs@)[4], ts@[4]));
            }
            assert(!fields_match(vals_model(vs@), ts@));
        }
    }
    build_call(name, ts, vs)
}

/// Calldata for an `(address,address,address,address)` schema.
fn call_init(name: &Vec<u8>, a: &Vec<u8>, b: &Vec<u8>, c: &Vec<u8>, d: &Vec<u8>) -> (r: Result<
    Vec<u8>,
    EncodingError,
>)
    ensures
        r matches Ok(o) ==> a@.len() == 20 && b@.len() == 20 && c@.len() == 20 && d@.len() == 20
            && o@ == selector_of(name@, tys_init()) + enc_params(
            tys_init(),
            args_init(a@, b@, c@, d@),
        ),
        r == Err::<Vec<u8>, EncodingError>(EncodingError::ShapeMismatch) <==> !(a@.len() == 20
            && b@.len() == 20 && c@.len() == 20 && d@.len() == 20),
        r == Err::<Vec<u8>, EncodingError>(EncodingError::TooLong) <==> a@.len() == 20 && b@.len()
            == 20 && c@.len() == 20 && d@.len() == 20 && 4 + enc_params(
            tys_init(),
            args_init(a@, b@, c@, d@),
        ).len() > usize::MAX,
{
    let mut ts: Vec<AbiType> = Vec::new();
    ts.push(AbiType::Address);
    ts.push(AbiType::Address);
    ts.push(AbiType::Address);
    ts.push(AbiType::Address);
    let mut vs: Vec<AbiValue> = Vec::new();
    vs.push(AbiValue::Address(bytes_dup(a)));
    vs.push(AbiValue::Address(bytes_dup(b)));
    vs.push(AbiValue::Address(bytes_dup(c)));
    vs.push(AbiValue::Address(bytes_dup(d)));
    proof {
        assert(ts@ =~= tys_init());
        crate::value::lemma_vals_model(vs@);
        assert(vals_model(vs@) =~= args_init(a@, b@, c@, d@));
        assert(tys_valid(ts@));
        if a@.len() == 20 && b@.len() == 20 && c@.len() == 20 && d@.len() == 20 {
            assert(fields_match(vals_model(vs@), ts@)) by {
                assert forall|j: int|
                    0 <= j < ts@.len() implies crate::value::val_matches(
                    vals_model(vs@)[j],
                    #[trigger] ts@[j],
                ) by {
                    assert(0 <= j < 4);
                }
            }
        } else {
            if a@.len() != 20 {
                assert(!crate::value::val_matches(vals_model(vs@)[0], ts@[0]));
            } else if b@.len() != 20 {
                assert(!crate::value::val_matches(vals_model(vs@)[1], ts@[1]));
            } else if c@.len() != 20 {
                assert(!crate::value::val_matches(vals_model(vs@)[2], ts@[2]));
            } else {
                assert(!crate::value::val_matches(vals_model(vs@)[3], ts@[3]));
            }
            assert(!fields_match(vals_model(vs@), ts@));
        }
    }
    build_call(name, ts, vs)
}

/// Calldata for a `(bytes,bytes)` schema.
fn call_process(name: &Vec<u8>, m1: &Vec<u8>, m2: &Vec<u8>) -> (r: Result<Vec<u8>, EncodingError>)
    ensures
        r matches Ok(b) ==> b@ == selector_of(name@, tys_process()) + enc_params(
            tys_process(),
            args_process(m1@, m2@),
        ),
        r == Err::<Vec<u8>, EncodingError>(EncodingError::ShapeMismatch) <==> false,
        r == Err::<Vec<u8>, EncodingError>(EncodingError::TooLong) <==> 4 + enc_params(
            tys_process(),
            args_process(m1@, m2@),
        ).len() > usize::MAX,
{
    let mut ts: Vec<AbiType> = Vec::new();
    ts.push(AbiType::Bytes);
    ts.push(AbiType::Bytes);
    let mut vs: Vec<AbiValue> = Vec::new();
    vs.push(AbiValue::Bytes(bytes_dup(m1)));
    vs.push(AbiValue::Bytes(bytes_dup(m2)));
    proof {
        assert(ts@ =~= tys_process());
        crate::value::lemma_vals_model(vs@);
        assert(vals_model(vs@) =~= args_process(m1@, m2@));
        assert(tys_valid(ts@));
        assert(fields_match(vals_model(vs@), ts@)) by {
            assert forall|j: int|
                0 <= j < ts@.len() implies crate::value::val_matches(
                vals_model(vs@)[j],
                #[trigger] ts@[j],
            ) by {
                assert(0 <= j < 2);
            }
        }
    }
    build_call(name, ts, vs)
}

impl Mailbox {
    /// Calldata for the contract's `VERSION` function.
    pub fn version(&self) -> (r: Result<Vec<u8>, EncodingError>)
        ensures
            r matches Ok(b) ==> b@ == selector_of("VERSION".spec_bytes(), Seq::<AbiType>::empty())
                + enc_params(Seq::<AbiType>::empty(), Seq::<ValModel>::empty()),
            r is Ok,
    {
        call_nullary(&name_bytes("VERSION"))
    }

    /// Calldata for the contract's `defaultHook` function.
    pub fn default_hook(&self) -> (r: Result<Vec<u8>, EncodingError>)
        ensures
            r matches Ok(b) ==> b@ == selector_of("defaultHook".spec_bytes(), Seq::<AbiType>::empty())
                + enc_params(Seq::<AbiType>::empty(), Seq::<ValModel>::empty()),
            r is Ok,
    {
        call_nullary(&name_bytes("defaultHook"))
    }

    /// Calldata for the contract's `defaultIsm` function.
    pub fn default_ism(&self) -> (r: Result<Vec<u8>, EncodingError>)
        ensures
            r matches Ok(b) ==> b@ == selector_of("defaultIsm".spec_bytes(), Seq::<AbiType>::empty())
                + enc_params(Seq::<AbiType>::empty(), Seq::<ValModel>::empty()),
            r is Ok,
    {
        call_nullary(&name_bytes("defaultIsm"))
    }

    /// Calldata for the contract's `deployedBlock` function.
    pub fn deployed_block(&self) -> (r: Result<Vec<u8>, EncodingError>)
        ensures
            r matches Ok(b) ==> b@ == selector_of("deployedBlock".spec_bytes(), Seq::<AbiType>::empty())
                + enc_params(Seq::<AbiType>::empty(), Seq::<ValModel>::empty()),
            r is Ok,
    {
        call_nullary(&name_bytes("deployedBlock"))
    }

    /// Calldata for the contract's `latestDispatchedId` function.
    pub fn latest_dispatched_id(&self) -> (r: Result<Vec<u8>, EncodingError>)
        ensures
            r matches Ok(b) ==> b@ == selector_of("latestDispatchedId".spec_bytes(), Seq::<AbiType>::empty())
                + enc_params(Seq::<AbiType>::empty(), Seq::<ValModel>::empty()),
            r is Ok,
    {
        call_nullary(&name_bytes("latestDispatchedId"))
    }

    /// Calldata for the contract's `localDomain` function.
    pub fn local_domain(&self) -> (r: Result<Vec<u8>, EncodingError>)
        ensures
            r matches Ok(b) ==> b@ == selector_of("localDomain".spec_bytes(), Seq::<AbiType>::empty())
                + enc_params(Seq::<AbiType>::empty(), Seq::<ValModel>::empty()),
            r is Ok,
    {
        call_nullary(&name_bytes("localDomain"))
    }

    /// Calldata for the contract's `nonce` function.
    pub fn nonce(&self) -> (r: Result<Vec<u8>, EncodingError>)
        ensures
            r matches Ok(b) ==> b@ == selector_of("nonce".spec_bytes(), Seq::<AbiType>::empty())
                + enc_params(Seq::<AbiType>::empty(), Seq::<ValModel>::empty()),
            r is Ok,
    {
        call_nullary(&name_bytes("nonce"))
    }

    /// Calldata for the contract's `owner` function.
    pub fn owner(&self) -> (r: Result<Vec<u8>, EncodingError>)
        ensures
            r matches Ok(b) ==> b@ == selector_of("owner".spec_bytes(), Seq::<AbiType>::empty())
                + enc_params(Seq::<AbiType>::empty(), Seq::<ValModel>::empty()),
            r is Ok,
    {
        call_nullary(&name_bytes("owner"))
    }

    /// Calldata for the contract's `renounceOwnership` function.
    pub fn renounce_ownership(&self) -> (r: Result<Vec<u8>, EncodingError>)
        ensures
            r matches Ok(b) ==> b@ == selector_of("renounceOwnership".spec_bytes(), Seq::<AbiType>::empty())
                + enc_params(Seq::<AbiType>::empty(), Seq::<ValModel>::empty()),
            r is Ok,
    {
        call_nullary(&name_bytes("renounceOwnership"))
    }

    /// Calldata for the contract's `requiredHook` function.
    pub fn required_hook(&self) -> (r: Result<Vec<u8>, EncodingError>)
        ensures
            r matches Ok(b) ==> b@ == selector_of("requiredHook".spec_bytes(), Seq::<AbiType>::empty())
                + enc_params(Seq::<AbiType>::empty(), Seq::<ValModel>::empty()),
            r is Ok,
    {
        call_nullary(&name_bytes("requiredHook"))
    }

    /// Calldata for the contract's `delivered` function.
    pub fn delivered(&self, id: &Vec<u8>) -> (r: Result<Vec<u8>, EncodingError>)
        ensures
            r matches Ok(b) ==> id@.len() == 32 && b@ == selector_of("delivered".spec_bytes(), tys_id())
                + enc_params(tys_id(), args_id(id@)),
            r == Err::<Vec<u8>, EncodingError>(EncodingError::ShapeMismatch) <==> id@.len() != 32,
            r == Err::<Vec<u8>, EncodingError>(EncodingError::TooLong) <==> id@.len() == 32 && 4
                + enc_params(tys_id(), args_id(id@)).len() > usize::MAX,
    {
        call_id(&name_bytes("delivered"), id)
    }

    /// Calldata for the contract's `processedAt` function.
    pub fn processed_at(&self, id: &Vec<u8>) -> (r: Result<Vec<u8>, EncodingError>)
        ensures
            r matches Ok(b) ==> id@.len() == 32 && b@ == selector_of("processedAt".spec_bytes(), tys_id())
                + enc_params(tys_id(), args_id(id@)),
            r == Err::<Vec<u8>, EncodingError>(EncodingError::ShapeMismatch) <==> id@.len() != 32,
            r == Err::<Vec<u8>, EncodingError>(EncodingError::TooLong) <==> id@.len() == 32 && 4
                + enc_params(tys_id(), args_id(id@)).len() > usize::MAX,
    {
        call_id(&name_bytes("processedAt"), id)
    }

    /// Calldata for the contract's `processor` function.
    pub fn processor(&self, id: &Vec<u8>) -> (r: Result<Vec<u8>, EncodingError>)
        ensures
            r matches Ok(b) ==> id@.len() == 32 && b@ == selector_of("processor".spec_bytes(), tys_id())
                + enc_params(tys_id(), args_id(id@)),
            r == Err::<Vec<u8>, EncodingError>(EncodingError::ShapeMismatch) <==> id@.len() != 32,
            r == Err::<Vec<u8>, EncodingError>(EncodingError::TooLong) <==> id@.len() == 32 && 4
                + enc_params(tys_id(), args_id(id@)).len() > usize::MAX,
    {
        call_id(&name_bytes("processor"), id)
    }

    /// Calldata for the contract's `recipientIsm` function.
    pub fn recipient_ism(&self, recipient: &Vec<u8>) -> (r: Result<Vec<u8>, EncodingError>)
        ensures
            r matches Ok(b) ==> recipient@.len() == 20 && b@ == selector_of(
                "recipientIsm".spec_bytes(),
                tys_addr(),
            ) + enc_params(tys_addr(), args_addr(recipient@)),
            r == Err::<Vec<u8>, EncodingError>(EncodingError::ShapeMismatch) <==> recipient@.len() != 20,
            r == Err::<Vec<u8>, EncodingError>(EncodingError::TooLong) <==> recipient@.len() == 20 && 4
                + enc_params(tys_addr(), args_addr(recipient@)).len() > usize::MAX,
    {
        call_addr(&name_bytes("recipientIsm"), recipient)
    }

    /// Calldata for the contract's `setDefaultHook` function.
    pub fn set_default_hook(&self, hook: &Vec<u8>) -> (r: Result<Vec<u8>, EncodingError>)
        ensures
            r matches Ok(b) ==> hook@.len() == 20 && b@ == selector_of(
                "setDefaultHook".spec_bytes(),
                tys_addr(),
            ) + enc_params(tys_addr(), args_addr(hook@)),
            r == Err::<Vec<u8>, EncodingError>(EncodingError::ShapeMismatch) <==> hook@.len() != 20,
            r == Err::<Vec<u8>, EncodingError>(EncodingError::TooLong) <==> hook@.len() == 20 && 4
                + enc_params(tys_addr(), args_addr(hook@)).len() > usize::MAX,
    {
        call_addr(&name_bytes("setDefaultHook"), hook)
    }

    /// Calldata for the contract's `setDefaultIsm` function.
    pub fn set_default_ism(&self, module: &Vec<u8>) -> (r: Result<Vec<u8>, EncodingError>)
        ensures
            r matches Ok(b) ==> module@.len() == 20 && b@ == selector_of(
                "setDefaultIsm".spec_bytes(),
                tys_addr(),
            ) + enc_params(tys_addr(), args_addr(module@)),
            r == Err::<Vec<u8>, EncodingError>(EncodingError::ShapeMismatch) <==> module@.len() != 20,
            r == Err::<Vec<u8>, EncodingError>(EncodingError::TooLong) <==> module@.len() == 20 && 4
                + enc_params(tys_addr(), args_addr(module@)).len() > usize::MAX,
    {
        call_addr(&name_bytes("setDefaultIsm"), module)
    }

    /// Calldata for the contract's `setRequiredHook` function.
    pub fn set_required_hook(&self, hook: &Vec<u8>) -> (r: Result<Vec<u8>, EncodingError>)
        ensures
            r matches Ok(b) ==> hook@.len() == 20 && b@ == selector_of(
                "setRequiredHook".spec_bytes(),
                tys_addr(),
            ) + enc_params(tys_addr(), args_addr(hook@)),
            r == Err::<Vec<u8>, EncodingError>(EncodingError::ShapeMismatch) <==> hook@.len() != 20,
            r == Err::<Vec<u8>, EncodingError>(EncodingError::TooLong) <==> hook@.len() == 20 && 4
                + enc_params(tys_addr(), args_addr(hook@)).len() > usize::MAX,
    {
        call_addr(&name_bytes("setRequiredHook"), hook)
    }

    /// Calldata for the contract's `transferOwnership` function.
    pub fn transfer_ownership(&self, new_owner: &Vec<u8>) -> (r: Result<Vec<u8>, EncodingError>)
        ensures
            r matches Ok(b) ==> new_owner@.len() == 20 && b@ == selector_of(
                "transferOwnership".spec_bytes(),
                tys_addr(),
            ) + enc_params(tys_addr(), args_addr(new_owner@)),
            r == Err::<Vec<u8>, EncodingError>(EncodingError::ShapeMismatch) <==> new_owner@.len() != 20,
            r == Err::<Vec<u8>, EncodingError>(EncodingError::TooLong) <==> new_owner@.len() == 20 && 4
                + enc_params(tys_addr(), args_addr(new_owner@)).len() > usize::MAX,
    {
        call_addr(&name_bytes("transferOwnership"), new_owner)
    }

    /// Calldata for the contract's `dispatch(uint32,bytes32,bytes)` overload.
    pub fn dispatch_0(&self, destination_domain: u32, recipient_address: &Vec<u8>, message_body: &Vec<u8>) -> (r: Result<Vec<u8>, EncodingError>)
        ensures
            r matches Ok(b) ==> recipient_address@.len() == 32 && b@ == selector_of(
                "dispatch".spec_bytes(),
                tys_dispatch3(),
            ) + enc_params(tys_dispatch3(), args_dispatch3(destination_domain, recipient_address@, message_body@)),
            r == Err::<Vec<u8>, EncodingError>(EncodingError::ShapeMismatch) <==> recipient_address@.len() != 32,
            r == Err::<Vec<u8>, EncodingError>(EncodingError::TooLong) <==> recipient_address@.len() == 32 && 4
                + enc_params(tys_dispatch3(), args_dispatch3(destination_domain, recipient_address@, message_body@)).len() > usize::MAX,
    {
        call_d3(&name_bytes("dispatch"), destination_domain, recipient_address, message_body)
    }

    /// Calldata for the contract's `quoteDispatch(uint32,bytes32,bytes)` overload.
    pub fn quote_dispatch(&self, destination_domain: u32, recipient_address: &Vec<u8>, message_body: &Vec<u8>) -> (r: Result<Vec<u8>, EncodingError>)
        ensures
            r matches Ok(b) ==> recipient_address@.len() == 32 && b@ == selector_of(
                "quoteDispatch".spec_bytes(),
                tys_dispatch3(),
            ) + enc_params(tys_dispatch3(), args_dispatch3(destination_domain, recipient_address@, message_body@)),
            r == Err::<Vec<u8>, EncodingError>(EncodingError::ShapeMismatch) <==> recipient_address@.len() != 32,
            r == Err::<Vec<u8>, EncodingError>(EncodingError::TooLong) <==> recipient_address@.len() == 32 && 4
                + enc_params(tys_dispatch3(), args_dispatch3(destination_domain, recipient_address@, message_body@)).len() > usize::MAX,
    {
        call_d3(&name_bytes("quoteDispatch"), destination_domain, recipient_address, message_body)
    }

    /// Calldata for the contract's `dispatch(uint32,bytes32,bytes,bytes)` overload.
    pub fn dispatch_1(
        &self,
        destination_domain: u32,
        recipient_address: &Vec<u8>,
        message_body: &Vec<u8>,
        hook_metadata: &Vec<u8>,
    ) -> (r: Result<Vec<u8>, EncodingError>)
        ensures
            r matches Ok(b) ==> recipient_address@.len() == 32 && b@ == selector_of(
                "dispatch".spec_bytes(),
                tys_dispatch4(),
            ) + enc_params(
                tys_dispatch4(),
                args_dispatch4(destination_domain, recipient_address@, message_body@, hook_metadata@),
            ),
            r == Err::<Vec<u8>, EncodingError>(EncodingError::ShapeMismatch)
                <==> recipient_address@.len() != 32,
            r == Err::<Vec<u8>, EncodingError>(EncodingError::TooLong)
                <==> recipient_address@.len() == 32 && 4 + enc_params(
                tys_dispatch4(),
                args_dispatch4(destination_domain, recipient_address@, message_body@, hook_metadata@),
            ).len() > usize::MAX,
    {
        call_d4(&name_bytes("dispatch"), destination_domain, recipient_address, message_body, hook_metadata)
    }

    /// Calldata for the contract's `quoteDispatch(uint32,bytes32,bytes,bytes)` overload.
    pub fn quote_dispatch_with_destination_domain_and_recipient_address_and_default_hook_metadata(
        &self,
        destination_domain: u32,
        recipient_address: &Vec<u8>,
        message_body: &Vec<u8>,
        default_hook_metadata: &Vec<u8>,
    ) -> (r: Result<Vec<u8>, EncodingError>)
        ensures
            r matches Ok(b) ==> recipient_address@.len() == 32 && b@ == selector_of(
                "quoteDispatch".spec_bytes(),
                tys_dispatch4(),
            ) + enc_params(
                tys_dispatch4(),
                args_dispatch4(destination_domain, recipient_address@, message_body@, default_hook_metadata@),
            ),
            r == Err::<Vec<u8>, EncodingError>(EncodingError::ShapeMismatch)
                <==> recipient_address@.len() != 32,
            r == Err::<Vec<u8>, EncodingError>(EncodingError::TooLong)
                <==> recipient_address@.len() == 32 && 4 + enc_params(
                tys_dispatch4(),
                args_dispatch4(destination_domain, recipient_address@, message_body@, default_hook_metadata@),
            ).len() > usize::MAX,
    {
        call_d4(&name_bytes("quoteDispatch"), destination_domain, recipient_address, message_body, default_hook_metadata)
    }

    /// Calldata for the contract's `dispatch(uint32,bytes32,bytes,bytes,address)` overload.
    pub fn dispatch_2(
        &self,
        destination_domain: u32,
        recipient_address: &Vec<u8>,
        message_body: &Vec<u8>,
        metadata: &Vec<u8>,
        hook: &Vec<u8>,
    ) -> (r: Result<Vec<u8>, EncodingError>)
        ensures
            r matches Ok(b) ==> recipient_address@.len() == 32 && hook@.len() == 20 && b@
                == selector_of("dispatch".spec_bytes(), tys_dispatch5()) + enc_params(
                tys_dispatch5(),
                args_dispatch5(
                    destination_domain,
                    recipient_address@,
                    message_body@,
                    metadata@,
                    hook@,
                ),
            ),
            r == Err::<Vec<u8>, EncodingError>(EncodingError::ShapeMismatch) <==> !(
            recipient_address@.len() == 32 && hook@.len() == 20),
            r == Err::<Vec<u8>, EncodingError>(EncodingError::TooLong) <==> recipient_address@.len()
                == 32 && hook@.len() == 20 && 4 + enc_params(
                tys_dispatch5(),
                args_dispatch5(
                    destination_domain,
                    recipient_address@,
                    message_body@,
                    metadata@,
                    hook@,
                ),
            ).len() > usize::MAX,
    {
        call_d5(&name_bytes("dispatch"), destination_domain, recipient_address, message_body, metadata, hook)
    }

    /// Calldata for the contract's `quoteDispatch(uint32,bytes32,bytes,bytes,address)` overload.
    pub fn quote_dispatch_with_destination_domain_and_recipient_address_and_metadata(
        &self,
        destination_domain: u32,
        recipient_address: &Vec<u8>,
        message_body: &Vec<u8>,
        metadata: &Vec<u8>,
        hook: &Vec<u8>,
    ) -> (r: Result<Vec<u8>, EncodingError>)
        ensures
            r matches Ok(b) ==> recipient_address@.len() == 32 && hook@.len() == 20 && b@
                == selector_of("quoteDispatch".spec_bytes(), tys_dispatch5()) + enc_params(
                tys_dispatch5(),
                args_dispatch5(
                    destination_domain,
                    recipient_address@,
                    message_body@,
                    metadata@,
                    hook@,
                ),
            ),
            r == Err::<Vec<u8>, EncodingError>(EncodingError::ShapeMismatch) <==> !(
            recipient_address@.len() == 32 && hook@.len() == 20),
            r == Err::<Vec<u8>, EncodingError>(EncodingError::TooLong) <==> recipient_address@.len()
                == 32 && hook@.len() == 20 && 4 + enc_params(
                tys_dispatch5(),
                args_dispatch5(
                    destination_domain,
                    recipient_address@,
                    message_body@,
                    metadata@,
                    hook@,
                ),
            ).len() > usize::MAX,
    {
        call_d5(&name_bytes("quoteDispatch"), destination_domain, recipient_address, message_body, metadata, hook)
    }

    /// Calldata for the contract's `initialize` function.
    pub fn initialize(
        &self,
        owner: &Vec<u8>,
        default_ism: &Vec<u8>,
        default_hook: &Vec<u8>,
        required_hook: &Vec<u8>,
    ) -> (r: Result<Vec<u8>, EncodingError>)
        ensures
            r matches Ok(b) ==> owner@.len() == 20 && default_ism@.len() == 20
                && default_hook@.len() == 20 && required_hook@.len() == 20 && b@ == selector_of(
                "initialize".spec_bytes(),
                tys_init(),
            ) + enc_params(tys_init(), args_init(owner@, default_ism@, default_hook@, required_hook@)),
            r == Err::<Vec<u8>, EncodingError>(EncodingError::ShapeMismatch) <==> !(owner@.len()
                == 20 && default_ism@.len() == 20 && default_hook@.len() == 20
                && required_hook@.len() == 20),
            r == Err::<Vec<u8>, EncodingError>(EncodingError::TooLong) <==> owner@.len() == 20
                && default_ism@.len() == 20 && default_hook@.len() == 20 && required_hook@.len()
                == 20 && 4 + enc_params(
                tys_init(),
                args_init(owner@, default_ism@, default_hook@, required_hook@),
            ).len() > usize::MAX,
    {
        call_init(&name_bytes("initialize"), owner, default_ism, default_hook, required_hook)
    }

    /// Calldata for the contract's `process` function.
    pub fn process(&self, metadata: &Vec<u8>, message: &Vec<u8>) -> (r: Result<
        Vec<u8>,
        EncodingError,
    >)
        ensures
            r matches Ok(b) ==> b@ == selector_of("process".spec_bytes(), tys_process())
                + enc_params(tys_process(), args_process(metadata@, message@)),
            r == Err::<Vec<u8>, EncodingError>(EncodingError::ShapeMismatch) <==> false,
            r == Err::<Vec<u8>, EncodingError>(EncodingError::TooLong) <==> 4 + enc_params(
                tys_process(),
                args_process(metadata@, message@),
            ).len() > usize::MAX,
    {
        call_process(&name_bytes("process"), metadata, message)
    }

    /// The registered schema of the contract's `DefaultHookSet` event.
    pub fn default_hook_set_filter(&self) -> (r: &EventSchema)
        requires
            self.wf(),
        ensures
            *r == self.events.events@[0],
            mailbox_event_at(*r, 0),
    {
        &self.events.events[0]
    }

    /// The registered schema of the contract's `DefaultIsmSet` event.
    pub fn default_ism_set_filter(&self) -> (r: &EventSchema)
        requires
            self.wf(),
        ensures
            *r == self.events.events@[1],
            mailbox_event_at(*r, 1),
    {
        &self.events.events[1]
    }

    /// The registered schema of the contract's `Dispatch` event.
    pub fn dispatch_filter(&self) -> (r: &EventSchema)
        requires
            self.wf(),
        ensures
            *r == self.events.events@[2],
            mailbox_event_at(*r, 2),
    {
        &self.events.events[2]
    }

    /// The registered schema of the contract's `DispatchId` event.
    pub fn dispatch_id_filter(&self) -> (r: &EventSchema)
        requires
            self.wf(),
        ensures
            *r == self.events.events@[3],
            mailbox_event_at(*r, 3),
    {
        &self.events.events[3]
    }

    /// The registered schema of the contract's `Initialized` event.
    pub fn initialized_filter(&self) -> (r: &EventSchema)
        requires
            self.wf(),
        ensures
            *r == self.events.events@[4],
            mailbox_event_at(*r, 4),
    {
        &self.events.events[4]
    }

    /// The registered schema of the contract's `OwnershipTransferred` event.
    pub fn ownership_transferred_filter(&self) -> (r: &EventSchema)
        requires
            self.wf(),
        ensures
            *r == self.events.events@[5],
            mailbox_event_at(*r, 5),
    {
        &self.events.events[5]
    }

    /// The registered schema of the contract's `Process` event.
    pub fn process_filter(&self) -> (r: &EventSchema)
        requires
            self.wf(),
        ensures
            *r == self.events.events@[6],
            mailbox_event_at(*r, 6),
    {
        &self.events.events[6]
    }

    /// The registered schema of the contract's `ProcessId` event.
    pub fn process_id_filter(&self) -> (r: &EventSchema)
        requires
            self.wf(),
        ensures
            *r == self.events.events@[7],
            mailbox_event_at(*r, 7),
    {
        &self.events.events[7]
    }

    /// The registered schema of the contract's `RequiredHookSet` event.
    pub fn required_hook_set_filter(&self) -> (r: &EventSchema)
        requires
            self.wf(),
        ensures
            *r == self.events.events@[8],
            mailbox_event_at(*r, 8),
    {
        &self.events.events[8]
    }

    /// The registry of all event schemas of this contract.
    pub fn events(&self) -> (r: &EventRegistry)
        ensures
            r.events@ == self.events.events@,
    {
        &self.events
    }
}


/// Arguments of a one-identifier schema, back as plain bytes.
fn extract_id(values: &Vec<AbiValue>) -> (r: Vec<u8>)
    requires
        fields_match(vals_model(values@), tys_id()),
    ensures
        vals_model(values@) == args_id(r@),
        r@.len() == 32,
{
    proof {
        crate::value::lemma_vals_model(values@);
        assert(crate::value::val_matches(vals_model(values@)[0], tys_id()[0]));
    }
    let v = values[0].fixed_bytes_value();
    proof {
        assert(vals_model(values@) =~= args_id(v@));
    }
    v
}

/// Arguments of a one-address schema, back as plain bytes.
fn extract_addr(values: &Vec<AbiValue>) -> (r: Vec<u8>)
    requires
        fields_match(vals_model(values@), tys_addr()),
    ensures
        vals_model(values@) == args_addr(r@),
        r@.len() == 20,
{
    proof {
        crate::value::lemma_vals_model(values@);
        assert(crate::value::val_matches(vals_model(values@)[0], tys_addr()[0]));
    }
    let v = values[0].address_value();
    proof {
        assert(vals_model(values@) =~= args_addr(v@));
    }
    v
}

/// A `uint32` argument, back as the number its word carries.
fn extract_u32_of(v: &AbiValue) -> (r: u32)
    requires
        crate::value::val_matches(v@, AbiType::Uint(32)),
    ensures
        v@ == ValModel::Uint(be_bytes(r as nat, 4)),
{
    let x = v.uint_u32();
    proof {
        crate::words::lemma_be_bytes_of_val(v@->Uint_0);
    }
    x
}

/// A `uint8` argument, back as the number its word carries.
fn extract_u8_of(v: &AbiValue) -> (r: u8)
    requires
        crate::value::val_matches(v@, AbiType::Uint(8)),
    ensures
        v@ == ValModel::Uint(be_bytes(r as nat, 1)),
{
    let x = v.uint_u8();
    proof {
        crate::words::lemma_be_bytes_of_val(v@->Uint_0);
    }
    x
}

/// Arguments of a `(uint32,bytes32,bytes)` schema, back as plain values.
fn extract_d3(values: &Vec<AbiValue>) -> (r: (u32, Vec<u8>, Vec<u8>))
    requires
        fields_match(vals_model(values@), tys_dispatch3()),
    ensures
        vals_model(values@) == args_dispatch3(r.0, r.1@, r.2@),
        r.1@.len() == 32,
{
    proof {
        crate::value::lemma_vals_model(values@);
        assert(crate::value::val_matches(vals_model(values@)[0], tys_dispatch3()[0]));
        assert(crate::value::val_matches(vals_model(values@)[1], tys_dispatch3()[1]));
        assert(crate::value::val_matches(vals_model(values@)[2], tys_dispatch3()[2]));
    }
    let dd = extract_u32_of(&values[0]);
    let ra = values[1].fixed_bytes_value();
    let mb = values[2].bytes_value();
    proof {
        assert(vals_model(values@) =~= args_dispatch3(dd, ra@, mb@));
    }
    (dd, ra, mb)
}

/// Arguments of a `(uint32,bytes32,bytes,bytes)` schema.
fn extract_d4(values: &Vec<AbiValue>) -> (r: (u32, Vec<u8>, Vec<u8>, Vec<u8>))
    requires
        fields_match(vals_model(values@), tys_dispatch4()),
    ensures
        vals_model(values@) == args_dispatch4(r.0, r.1@, r.2@, r.3@),
        r.1@.len() == 32,
{
    proof {
        crate::value::lemma_vals_model(values@);
        assert(crate::value::val_matches(vals_model(values@)[0], tys_dispatch4()[0]));
        assert(crate::value::val_matches(vals_model(values@)[1], tys_dispatch4()[1]));
        assert(crate::value::val_matches(vals_model(values@)[2], tys_dispatch4()[2]));
        assert(crate::value::val_matches(vals_model(values@)[3], tys_dispatch4()[3]));
    }
    let dd = extract_u32_of(&values[0]);
    let ra = values[1].fixed_bytes_value();
    let mb = values[2].bytes_value();
    let md = values[3].bytes_value();
    proof {
        assert(vals_model(values@) =~= args_dispatch4(dd, ra@, mb@, md@));
    }
    (dd, ra, mb, md)
}

/// Arguments of a `(uint32,bytes32,bytes,bytes,address)` schema.
fn extract_d5(values: &Vec<AbiValue>) -> (r: (u32, Vec<u8>, Vec<u8>, Vec<u8>, Vec<u8>))
    requires
        fields_match(vals_model(values@), tys_dispatch5()),
    ensures
        vals_model(values@) == args_dispatch5(r.0, r.1@, r.2@, r.3@, r.4@),
        r.1@.len() == 32,
        r.4@.len() == 20,
{
    proof {
        crate::value::lemma_vals_model(values@);
        assert(crate::value::val_matches(vals_model(values@)[0], tys_dispatch5()[0]));
        assert(crate::value::val_matches(vals_model(values@)[1], tys_dispatch5()[1]));
        assert(crate::value::val_matches(vals_model(values@)[2], tys_dispatch5()[2]));
        assert(crate::value::val_matches(vals_model(values@)[3], tys_dispatch5()[3]));
        assert(crate::value::val_matches(vals_model(values@)[4], tys_dispatch5()[4]));
    }
    let dd = extract_u32_of(&values[0]);
    let ra = values[1].fixed_bytes_value();
    let mb = values[2].bytes_value();
    let md = values[3].bytes_value();
    let hk = values[4].address_value();
    proof {
        assert(vals_model(values@) =~= args_dispatch5(dd, ra@, mb@, md@, hk@));
    }
    (dd, ra, mb, md, hk)
}

/// Arguments of an `(address,address,address,address)` schema.
fn extract_init(values: &Vec<AbiValue>) -> (r: (Vec<u8>, Vec<u8>, Vec<u8>, Vec<u8>))
    requires
        fields_match(vals_model(values@), tys_init()),
    ensures
        vals_model(values@) == args_init(r.0@, r.1@, r.2@, r.3@),
        r.0@.len() == 20 && r.1@.len() == 20 && r.2@.len() == 20 && r.3@.len() == 20,
{
    proof {
        crate::value::lemma_vals_model(values@);
        assert(crate::value::val_matches(vals_model(values@)[0], tys_init()[0]));
        assert(crate::value::val_matches(vals_model(values@)[1], tys_init()[1]));
        assert(crate::value::val_matches(vals_model(values@)[2], tys_init()[2]));
        assert(crate::value::val_matches(vals_model(values@)[3], tys_init()[3]));
    }
    let a = values[0].address_value();
    let b = values[1].address_value();
    let c = values[2].address_value();
    let d = values[3].address_value();
    proof {
        assert(vals_model(values@) =~= args_init(a@, b@, c@, d@));
    }
    (a, b, c, d)
}

/// Arguments of a `(bytes,bytes)` schema.
fn extract_process(values: &Vec<AbiValue>) -> (r: (Vec<u8>, Vec<u8>))
    requires
        fields_match(vals_model(values@), tys_process()),
    ensures
        vals_model(values@) == args_process(r.0@, r.1@),
{
    proof {
        crate::value::lemma_vals_model(values@);
        assert(crate::value::val_matches(vals_model(values@)[0], tys_process()[0]));
        assert(crate::value::val_matches(vals_model(values@)[1], tys_process()[1]));
    }
    let a = values[0].bytes_value();
    let b = values[1].bytes_value();
    proof {
        assert(vals_model(values@) =~= args_process(a@, b@));
    }
    (a, b)
}


/// Input parameters of the `VERSION` call.
#[derive(Debug, PartialEq, Eq)]
pub struct VersionCall;

/// Input parameters of the `defaultHook` call.
#[derive(Debug, PartialEq, Eq)]
pub struct DefaultHookCall;

/// Input parameters of the `defaultIsm` call.
#[derive(Debug, PartialEq, Eq)]
pub struct DefaultIsmCall;

/// Input parameters of the `delivered` call.
#[derive(Debug, PartialEq, Eq)]
pub struct DeliveredCall {
    pub id: Vec<u8>,
}

/// Input parameters of the `deployedBlock` call.
#[derive(Debug, PartialEq, Eq)]
pub struct DeployedBlockCall;

/// Input parameters of the `dispatch(uint32,bytes32,bytes,bytes,address)` overload.
#[derive(Debug, PartialEq, Eq)]
pub struct Dispatch2Call {
    pub destination_domain: u32,
    pub recipient_address: Vec<u8>,
    pub message_body: Vec<u8>,
    pub metadata: Vec<u8>,
    pub hook: Vec<u8>,
}

/// Input parameters of the `dispatch(uint32,bytes32,bytes,bytes)` overload.
#[derive(Debug, PartialEq, Eq)]
pub struct Dispatch1Call {
    pub destination_domain: u32,
    pub recipient_address: Vec<u8>,
    pub message_body: Vec<u8>,
    pub hook_metadata: Vec<u8>,
}

/// Input parameters of the `dispatch(uint32,bytes32,bytes)` overload.
#[derive(Debug, PartialEq, Eq)]
pub struct Dispatch0Call {
    pub destination_domain: u32,
    pub recipient_address: Vec<u8>,
    pub message_body: Vec<u8>,
}

/// Input parameters of the `initialize` call.
#[derive(Debug, PartialEq, Eq)]
pub struct InitializeCall {
    pub owner: Vec<u8>,
    pub default_ism: Vec<u8>,
    pub default_hook: Vec<u8>,
    pub required_hook: Vec<u8>,
}

/// Input parameters of the `latestDispatchedId` call.
#[derive(Debug, PartialEq, Eq)]
pub struct LatestDispatchedIdCall;

/// Input parameters of the `localDomain` call.
#[derive(Debug, PartialEq, Eq)]
pub struct LocalDomainCall;

/// Input parameters of the `nonce` call.
#[derive(Debug, PartialEq, Eq)]
pub struct NonceCall;

/// Input parameters of the `owner` call.
#[derive(Debug, PartialEq, Eq)]
pub struct OwnerCall;

/// Input parameters of the `process` call.
#[derive(Debug, PartialEq, Eq)]
pub struct ProcessCall {
    pub metadata: Vec<u8>,
    pub message: Vec<u8>,
}

/// Input parameters of the `processedAt` call.
#[derive(Debug, PartialEq, Eq)]
pub struct ProcessedAtCall {
    pub id: Vec<u8>,
}

/// Input parameters of the `processor` call.
#[derive(Debug, PartialEq, Eq)]
pub struct ProcessorCall {
    pub id: Vec<u8>,
}

/// Input parameters of the `quoteDispatch(uint32,bytes32,bytes,bytes,address)` overload.
#[derive(Debug, PartialEq, Eq)]
pub struct QuoteDispatchWithDestinationDomainAndRecipientAddressAndMetadataCall {
    pub destination_domain: u32,
    pub recipient_address: Vec<u8>,
    pub message_body: Vec<u8>,
    pub metadata: Vec<u8>,
    pub hook: Vec<u8>,
}

/// Input parameters of the `quoteDispatch(uint32,bytes32,bytes)` overload.
#[derive(Debug, PartialEq, Eq)]
pub struct QuoteDispatchCall {
    pub destination_domain: u32,
    pub recipient_address: Vec<u8>,
    pub message_body: Vec<u8>,
}

/// Input parameters of the `quoteDispatch(uint32,bytes32,bytes,bytes)` overload.
#[derive(Debug, PartialEq, Eq)]
pub struct QuoteDispatchWithDestinationDomainAndRecipientAddressAndDefaultHookMetadataCall {
    pub destination_domain: u32,
    pub recipient_address: Vec<u8>,
    pub message_body: Vec<u8>,
    pub default_hook_metadata: Vec<u8>,
}

/// Input parameters of the `recipientIsm` call.
#[derive(Debug, PartialEq, Eq)]
pub struct RecipientIsmCall {
    pub recipient: Vec<u8>,
}

/// Input parameters of the `renounceOwnership` call.
#[derive(Debug, PartialEq, Eq)]
pub struct RenounceOwnershipCall;

/// Input parameters of the `requiredHook` call.
#[derive(Debug, PartialEq, Eq)]
pub struct RequiredHookCall;

/// Input parameters of the `setDefaultHook` call.
#[derive(Debug, PartialEq, Eq)]
pub struct SetDefaultHookCall {
    pub hook: Vec<u8>,
}

/// Input parameters of the `setDefaultIsm` call.
#[derive(Debug, PartialEq, Eq)]
pub struct SetDefaultIsmCall {
    pub module: Vec<u8>,
}

/// Input parameters of the `setRequiredHook` call.
#[derive(Debug, PartialEq, Eq)]
pub struct SetRequiredHookCall {
    pub hook: Vec<u8>,
}

/// Input parameters of the `transferOwnership` call.
#[derive(Debug, PartialEq, Eq)]
pub struct TransferOwnershipCall {
    pub new_owner: Vec<u8>,
}

/// Every Mailbox call, tagged by the schema that decoded it; variants
/// stand in the registry's declaration order.
#[derive(Debug, PartialEq, Eq)]
pub enum MailboxCalls {
    Version(VersionCall),
    DefaultHook(DefaultHookCall),
    DefaultIsm(DefaultIsmCall),
    Delivered(DeliveredCall),
    DeployedBlock(DeployedBlockCall),
    Dispatch2(Dispatch2Call),
    Dispatch1(Dispatch1Call),
    Dispatch0(Dispatch0Call),
    Initialize(InitializeCall),
    LatestDispatchedId(LatestDispatchedIdCall),
    LocalDomain(LocalDomainCall),
    Nonce(NonceCall),
    Owner(OwnerCall),
    Process(ProcessCall),
    ProcessedAt(ProcessedAtCall),
    Processor(ProcessorCall),
    QuoteDispatchWithDestinationDomainAndRecipientAddressAndMetadata(
        QuoteDispatchWithDestinationDomainAndRecipientAddressAndMetadataCall,
    ),
    QuoteDispatch(QuoteDispatchCall),
    QuoteDispatchWithDestinationDomainAndRecipientAddressAndDefaultHookMetadata(
        QuoteDispatchWithDestinationDomainAndRecipientAddressAndDefaultHookMetadataCall,
    ),
    RecipientIsm(RecipientIsmCall),
    RenounceOwnership(RenounceOwnershipCall),
    RequiredHook(RequiredHookCall),
    SetDefaultHook(SetDefaultHookCall),
    SetDefaultIsm(SetDefaultIsmCall),
    SetRequiredHook(SetRequiredHookCall),
    TransferOwnership(TransferOwnershipCall),
}

/// How a decoded call relates to the multiplexer's hit: the variant is
/// the schema the hit names, and the fields carry exactly the decoded
/// argument values.
pub open spec fn mc_is(c: MailboxCalls, kv: (int, Seq<ValModel>)) -> bool {
    match c {
        MailboxCalls::Version(_) => kv.0 == 0 && kv.1.len() == 0,
        MailboxCalls::DefaultHook(_) => kv.0 == 1 && kv.1.len() == 0,
        MailboxCalls::DefaultIsm(_) => kv.0 == 2 && kv.1.len() == 0,
        MailboxCalls::Delivered(x) => kv.0 == 3 && kv.1 == args_id(x.id@),
        MailboxCalls::DeployedBlock(_) => kv.0 == 4 && kv.1.len() == 0,
        MailboxCalls::Dispatch2(x) => kv.0 == 5 && kv.1 == args_dispatch5(
            x.destination_domain,
            x.recipient_address@,
            x.message_body@,
            x.metadata@,
            x.hook@,
        ),
        MailboxCalls::Dispatch1(x) => kv.0 == 6 && kv.1 == args_dispatch4(
            x.destination_domain,
            x.recipient_address@,
            x.message_body@,
            x.hook_metadata@,
        ),
        MailboxCalls::Dispatch0(x) => kv.0 == 7 && kv.1 == args_dispatch3(
            x.destination_domain,
            x.recipient_address@,
            x.message_body@,
        ),
        MailboxCalls::Initialize(x) => kv.0 == 8 && kv.1 == args_init(
            x.owner@,
            x.default_ism@,
            x.default_hook@,
            x.required_hook@,
        ),
        MailboxCalls::LatestDispatchedId(_) => kv.0 == 9 && kv.1.len() == 0,
        MailboxCalls::LocalDomain(_) => kv.0 == 10 && kv.1.len() == 0,
        MailboxCalls::Nonce(_) => kv.0 == 11 && kv.1.len() == 0,
        MailboxCalls::Owner(_) => kv.0 == 12 && kv.1.len() == 0,
        MailboxCalls::Process(x) => kv.0 == 13 && kv.1 == args_process(x.metadata@, x.message@),
        MailboxCalls::ProcessedAt(x) => kv.0 == 14 && kv.1 == args_id(x.id@),
        MailboxCalls::Processor(x) => kv.0 == 15 && kv.1 == args_id(x.id@),
        MailboxCalls::QuoteDispatchWithDestinationDomainAndRecipientAddressAndMetadata(x) => kv.0
            == 16 && kv.1 == args_dispatch5(
            x.destination_domain,
            x.recipient_address@,
            x.message_body@,
            x.metadata@,
            x.hook@,
        ),
        MailboxCalls::QuoteDispatch(x) => kv.0 == 17 && kv.1 == args_dispatch3(
            x.destination_domain,
            x.recipient_address@,
            x.message_body@,
        ),
        MailboxCalls::QuoteDispatchWithDestinationDomainAndRecipientAddressAndDefaultHookMetadata(
            x,
        ) => kv.0 == 18 && kv.1 == args_dispatch4(
            x.destination_domain,
            x.recipient_address@,
            x.message_body@,
            x.default_hook_metadata@,
        ),
        MailboxCalls::RecipientIsm(x) => kv.0 == 19 && kv.1 == args_addr(x.recipient@),
        MailboxCalls::RenounceOwnership(_) => kv.0 == 20 && kv.1.len() == 0,
        MailboxCalls::RequiredHook(_) => kv.0 == 21 && kv.1.len() == 0,
        MailboxCalls::SetDefaultHook(x) => kv.0 == 22 && kv.1 == args_addr(x.hook@),
        MailboxCalls::SetDefaultIsm(x) => kv.0 == 23 && kv.1 == args_addr(x.module@),
        MailboxCalls::SetRequiredHook(x) => kv.0 == 24 && kv.1 == args_addr(x.hook@),
        MailboxCalls::TransferOwnership(x) => kv.0 == 25 && kv.1 == args_addr(x.new_owner@),
    }
}


impl MailboxCalls {
    /// Route raw call data to the first Mailbox schema whose selector
    /// matches and whose argument decode succeeds, in declaration order,
    /// and hand back the typed call.
    #[verifier::rlimit(100)]
    #[verifier::spinoff_prover]
    pub fn decode(mb: &Mailbox, data: &[u8]) -> (r: Result<MailboxCalls, DispatchError>)
        requires
            mb.wf(),
        ensures
            match r {
                Ok(c) => dec_call(mb.calls.schemas@, data@) matches Some(kv) && mc_is(c, kv),
                Err(e) => e == DispatchError::NoMatchingSchema && dec_call(
                    mb.calls.schemas@,
                    data@,
                ) is None,
            },
    {
        let dc = match mb.calls.decode_call(data) {
            Ok(dc) => dc,
            Err(e) => {
                return Err(e);
            },
        };
        let values = dc.values;
        let i = dc.schema;
        proof {
            crate::dispatch::lemma_dec_call_first(mb.calls.schemas@, data@);
            assert(mailbox_call_at(mb.calls.schemas@[i as int], i as int));
            assert(mb.calls.schemas@[i as int].wf());
            crate::decode::lemma_dec_fields_matches(
                param_tys(mb.calls.schemas@[i as int].inputs@),
                data@.skip(4),
                0,
            );
            assert(fields_match(
                vals_model(values@),
                param_tys(mb.calls.schemas@[i as int].inputs@),
            ));
        }
        match i {
            0 => {
                proof {
                    assert(param_tys(mb.calls.schemas@[0].inputs@) =~= Seq::<AbiType>::empty());
                }
                Ok(MailboxCalls::Version(VersionCall))
            },
            1 => {
                proof {
                    assert(param_tys(mb.calls.schemas@[1].inputs@) =~= Seq::<AbiType>::empty());
                }
                Ok(MailboxCalls::DefaultHook(DefaultHookCall))
            },
            2 => {
                proof {
                    assert(param_tys(mb.calls.schemas@[2].inputs@) =~= Seq::<AbiType>::empty());
                }
                Ok(MailboxCalls::DefaultIsm(DefaultIsmCall))
            },
            3 => {
                proof {
                    assert(param_tys(mb.calls.schemas@[3].inputs@) =~= tys_id());
                }
                let id = extract_id(&values);
                Ok(MailboxCalls::Delivered(DeliveredCall { id }))
            },
            4 => {
                proof {
                    assert(param_tys(mb.calls.schemas@[4].inputs@) =~= Seq::<AbiType>::empty());
                }
                Ok(MailboxCalls::DeployedBlock(DeployedBlockCall))
            },
            5 => {
                proof {
                    assert(param_tys(mb.calls.schemas@[5].inputs@) =~= tys_dispatch5());
                }
                let (dd, ra, mbb, md, hk) = extract_d5(&values);
                Ok(
                    MailboxCalls::Dispatch2(
                        Dispatch2Call {
                            destination_domain: dd,
                            recipient_address: ra,
                            message_body: mbb,
                            metadata: md,
                            hook: hk,
                        },
                    ),
                )
            },
            6 => {
                proof {
                    assert(param_tys(mb.calls.schemas@[6].inputs@) =~= tys_dispatch4());
                }
                let (dd, ra, mbb, md) = extract_d4(&values);
                Ok(
                    MailboxCalls::Dispatch1(
                        Dispatch1Call {
                            destination_domain: dd,
                            recipient_address: ra,
                            message_body: mbb,
                            hook_metadata: md,
                        },
                    ),
                )
            },
            7 => {
                proof {
                    assert(param_tys(mb.calls.schemas@[7].inputs@) =~= tys_dispatch3());
                }
                let (dd, ra, mbb) = extract_d3(&values);
                Ok(
                    MailboxCalls::Dispatch0(
                        Dispatch0Call { destination_domain: dd, recipient_address: ra, message_body: mbb },
                    ),
                )
            },
            8 => {
                proof {
                    assert(param_tys(mb.calls.schemas@[8].inputs@) =~= tys_init());
                }
                let (a, b, c, d) = extract_init(&values);
                Ok(
                    MailboxCalls::Initialize(
                        InitializeCall { owner: a, default_ism: b, default_hook: c, required_hook: d },
                    ),
                )
            },
            9 => {
                proof {
                    assert(param_tys(mb.calls.schemas@[9].inputs@) =~= Seq::<AbiType>::empty());
                }
                Ok(MailboxCalls::LatestDispatchedId(LatestDispatchedIdCall))
            },
            10 => {
                proof {
                    assert(param_tys(mb.calls.schemas@[10].inputs@) =~= Seq::<AbiType>::empty());
                }
                Ok(MailboxCalls::LocalDomain(LocalDomainCall))
            },
            11 => {
                proof {
                    assert(param_tys(mb.calls.schemas@[11].inputs@) =~= Seq::<AbiType>::empty());
                }
                Ok(MailboxCalls::Nonce(NonceCall))
            },
            12 => {
                proof {
                    assert(param_tys(mb.calls.schemas@[12].inputs@) =~= Seq::<AbiType>::empty());
                }
                Ok(MailboxCalls::Owner(OwnerCall))
            },
            13 => {
                proof {
                    assert(param_tys(mb.calls.schemas@[13].inputs@) =~= tys_process());
                }
                let (a, b) = extract_process(&values);
                Ok(MailboxCalls::Process(ProcessCall { metadata: a, message: b }))
            },
            14 => {
                proof {
                    assert(param_tys(mb.calls.schemas@[14].inputs@) =~= tys_id());
                }
                let id = extract_id(&values);
                Ok(MailboxCalls::ProcessedAt(ProcessedAtCall { id }))
            },
            15 => {
                proof {
                    assert(param_tys(mb.calls.schemas@[15].inputs@) =~= tys_id());
                }
                let id = extract_id(&values);
                Ok(MailboxCalls::Processor(ProcessorCall { id }))
            },
            16 => {
                proof {
                    assert(param_tys(mb.calls.schemas@[16].inputs@) =~= tys_dispatch5());
                }
                let (dd, ra, mbb, md, hk) = extract_d5(&values);
                Ok(
                    MailboxCalls::QuoteDispatchWithDestinationDomainAndRecipientAddressAndMetadata(
                        QuoteDispatchWithDestinationDomainAndRecipientAddressAndMetadataCall {
                            destination_domain: dd,
                            recipient_address: ra,
                            message_body: mbb,
                            metadata: md,
                            hook: hk,
                        },
                    ),
                )
            },
            17 => {
                proof {
                    assert(param_tys(mb.calls.schemas@[17].inputs@) =~= tys_dispatch3());
                }
                let (dd, ra, mbb) = extract_d3(&values);
                Ok(
                    MailboxCalls::QuoteDispatch(
                        QuoteDispatchCall { destination_domain: dd, recipient_address: ra, message_body: mbb },
                    ),
                )
            },
            18 => {
                proof {
                    assert(param_tys(mb.calls.schemas@[18].inputs@) =~= tys_dispatch4());
                }
                let (dd, ra, mbb, md) = extract_d4(&values);
                Ok(
                    MailboxCalls::QuoteDispatchWithDestinationDomainAndRecipientAddressAndDefaultHookMetadata(
                        QuoteDispatchWithDestinationDomainAndRecipientAddressAndDefaultHookMetadataCall {
                            destination_domain: dd,
                            recipient_address: ra,
                            message_body: mbb,
                            default_hook_metadata: md,
                        },
                    ),
                )
            },
            19 => {
                proof {
                    assert(param_tys(mb.calls.schemas@[19].inputs@) =~= tys_addr());
                }
                let a = extract_addr(&values);
                Ok(MailboxCalls::RecipientIsm(RecipientIsmCall { recipient: a }))
            },
            20 => {
                proof {
                    assert(param_tys(mb.calls.schemas@[20].inputs@) =~= Seq::<AbiType>::empty());
                }
                Ok(MailboxCalls::RenounceOwnership(RenounceOwnershipCall))
            },
            21 => {
                proof {
                    assert(param_tys(mb.calls.schemas@[21].inputs@) =~= Seq::<AbiType>::empty());
                }
                Ok(MailboxCalls::RequiredHook(RequiredHookCall))
            },
            22 => {
                proof {
                    assert(param_tys(mb.calls.schemas@[22].inputs@) =~= tys_addr());
                }
                let a = extract_addr(&values);
                Ok(MailboxCalls::SetDefaultHook(SetDefaultHookCall { hook: a }))
            },
            23 => {
                proof {
                    assert(param_tys(mb.calls.schemas@[23].inputs@) =~= tys_addr());
                }
                let a = extract_addr(&values);
                Ok(MailboxCalls::SetDefaultIsm(SetDefaultIsmCall { module: a }))
            },
            24 => {
                proof {
                    assert(param_tys(mb.calls.schemas@[24].inputs@) =~= tys_addr());
                }
                let a = extract_addr(&values);
                Ok(MailboxCalls::SetRequiredHook(SetRequiredHookCall { hook: a }))
            },
            25 => {
                proof {
                    assert(param_tys(mb.calls.schemas@[25].inputs@) =~= tys_addr());
                }
                let a = extract_addr(&values);
                Ok(MailboxCalls::TransferOwnership(TransferOwnershipCall { new_owner: a }))
            },
            _ => {
                proof {
                    assert(false);
                }
                Err(DispatchError::NoMatchingSchema)
            },
        }
    }
}


/// The schema name a call variant belongs to.
pub open spec fn mc_name(c: MailboxCalls) -> Seq<u8> {
    match c {
        MailboxCalls::Version(_) => "VERSION".spec_bytes(),
        MailboxCalls::DefaultHook(_) => "defaultHook".spec_bytes(),
        MailboxCalls::DefaultIsm(_) => "defaultIsm".spec_bytes(),
        MailboxCalls::Delivered(x) => "delivered".spec_bytes(),
        MailboxCalls::DeployedBlock(_) => "deployedBlock".spec_bytes(),
        MailboxCalls::Dispatch2(x) => "dispatch".spec_bytes(),
        MailboxCalls::Dispatch1(x) => "dispatch".spec_bytes(),
        MailboxCalls::Dispatch0(x) => "dispatch".spec_bytes(),
        MailboxCalls::Initialize(x) => "initialize".spec_bytes(),
        MailboxCalls::LatestDispatchedId(_) => "latestDispatchedId".spec_bytes(),
        MailboxCalls::LocalDomain(_) => "localDomain".spec_bytes(),
        MailboxCalls::Nonce(_) => "nonce".spec_bytes(),
        MailboxCalls::Owner(_) => "owner".spec_bytes(),
        MailboxCalls::Process(x) => "process".spec_bytes(),
        MailboxCalls::ProcessedAt(x) => "processedAt".spec_bytes(),
        MailboxCalls::Processor(x) => "processor".spec_bytes(),
        MailboxCalls::QuoteDispatchWithDestinationDomainAndRecipientAddressAndMetadata(x) => "quoteDispatch".spec_bytes(),
        MailboxCalls::QuoteDispatch(x) => "quoteDispatch".spec_bytes(),
        MailboxCalls::QuoteDispatchWithDestinationDomainAndRecipientAddressAndDefaultHookMetadata(x) => "quoteDispatch".spec_bytes(),
        MailboxCalls::RecipientIsm(x) => "recipientIsm".spec_bytes(),
        MailboxCalls::RenounceOwnership(_) => "renounceOwnership".spec_bytes(),
        MailboxCalls::RequiredHook(_) => "requiredHook".spec_bytes(),
        MailboxCalls::SetDefaultHook(x) => "setDefaultHook".spec_bytes(),
        MailboxCalls::SetDefaultIsm(x) => "setDefaultIsm".spec_bytes(),
        MailboxCalls::SetRequiredHook(x) => "setRequiredHook".spec_bytes(),
        MailboxCalls::TransferOwnership(x) => "transferOwnership".spec_bytes(),
    }
}

/// The input descriptor list of a call variant's schema.
pub open spec fn mc_tys(c: MailboxCalls) -> Seq<AbiType> {
    match c {
        MailboxCalls::Version(_) => Seq::<AbiType>::empty(),
        MailboxCalls::DefaultHook(_) => Seq::<AbiType>::empty(),
        MailboxCalls::DefaultIsm(_) => Seq::<AbiType>::empty(),
        MailboxCalls::Delivered(x) => tys_id(),
        MailboxCalls::DeployedBlock(_) => Seq::<AbiType>::empty(),
        MailboxCalls::Dispatch2(x) => tys_dispatch5(),
        MailboxCalls::Dispatch1(x) => tys_dispatch4(),
        MailboxCalls::Dispatch0(x) => tys_dispatch3(),
        MailboxCalls::Initialize(x) => tys_init(),
        MailboxCalls::LatestDispatchedId(_) => Seq::<AbiType>::empty(),
        MailboxCalls::LocalDomain(_) => Seq::<AbiType>::empty(),
        MailboxCalls::Nonce(_) => Seq::<AbiType>::empty(),
        MailboxCalls::Owner(_) => Seq::<AbiType>::empty(),
        MailboxCalls::Process(x) => tys_process(),
        MailboxCalls::ProcessedAt(x) => tys_id(),
        MailboxCalls::Processor(x) => tys_id(),
        MailboxCalls::QuoteDispatchWithDestinationDomainAndRecipientAddressAndMetadata(x) => tys_dispatch5(),
        MailboxCalls::QuoteDispatch(x) => tys_dispatch3(),
        MailboxCalls::QuoteDispatchWithDestinationDomainAndRecipientAddressAndDefaultHookMetadata(x) => tys_dispatch4(),
        MailboxCalls::RecipientIsm(x) => tys_addr(),
        MailboxCalls::RenounceOwnership(_) => Seq::<AbiType>::empty(),
        MailboxCalls::RequiredHook(_) => Seq::<AbiType>::empty(),
        MailboxCalls::SetDefaultHook(x) => tys_addr(),
        MailboxCalls::SetDefaultIsm(x) => tys_addr(),
        MailboxCalls::SetRequiredHook(x) => tys_addr(),
        MailboxCalls::TransferOwnership(x) => tys_addr(),
    }
}

/// The argument values a call variant carries.
pub open spec fn mc_args(c: MailboxCalls) -> Seq<ValModel> {
    match c {
        MailboxCalls::Version(_) => Seq::<ValModel>::empty(),
        MailboxCalls::DefaultHook(_) => Seq::<ValModel>::empty(),
        MailboxCalls::DefaultIsm(_) => Seq::<ValModel>::empty(),
        MailboxCalls::Delivered(x) => args_id(x.id@),
        MailboxCalls::DeployedBlock(_) => Seq::<ValModel>::empty(),
        MailboxCalls::Dispatch2(x) => args_dispatch5(x.destination_domain, x.recipient_address@, x.message_body@, x.metadata@, x.hook@),
        MailboxCalls::Dispatch1(x) => args_dispatch4(x.destination_domain, x.recipient_address@, x.message_body@, x.hook_metadata@),
        MailboxCalls::Dispatch0(x) => args_dispatch3(x.destination_domain, x.recipient_address@, x.message_body@),
        MailboxCalls::Initialize(x) => args_init(x.owner@, x.default_ism@, x.default_hook@, x.required_hook@),
        MailboxCalls::LatestDispatchedId(_) => Seq::<ValModel>::empty(),
        MailboxCalls::LocalDomain(_) => Seq::<ValModel>::empty(),
        MailboxCalls::Nonce(_) => Seq::<ValModel>::empty(),
        MailboxCalls::Owner(_) => Seq::<ValModel>::empty(),
        MailboxCalls::Process(x) => args_process(x.metadata@, x.message@),
        MailboxCalls::ProcessedAt(x) => args_id(x.id@),
        MailboxCalls::Processor(x) => args_id(x.id@),
        MailboxCalls::QuoteDispatchWithDestinationDomainAndRecipientAddressAndMetadata(x) => args_dispatch5(x.destination_domain, x.recipient_address@, x.message_body@, x.metadata@, x.hook@),
        MailboxCalls::QuoteDispatch(x) => args_dispatch3(x.destination_domain, x.recipient_address@, x.message_body@),
        MailboxCalls::QuoteDispatchWithDestinationDomainAndRecipientAddressAndDefaultHookMetadata(x) => args_dispatch4(x.destination_domain, x.recipient_address@, x.message_body@, x.default_hook_metadata@),
        MailboxCalls::RecipientIsm(x) => args_addr(x.recipient@),
        MailboxCalls::RenounceOwnership(_) => Seq::<ValModel>::empty(),
        MailboxCalls::RequiredHook(_) => Seq::<ValModel>::empty(),
        MailboxCalls::SetDefaultHook(x) => args_addr(x.hook@),
        MailboxCalls::SetDefaultIsm(x) => args_addr(x.module@),
        MailboxCalls::SetRequiredHook(x) => args_addr(x.hook@),
        MailboxCalls::TransferOwnership(x) => args_addr(x.new_owner@),
    }
}

/// Whether a call variant's fixed-size fields have their declared
/// lengths.
pub open spec fn mc_shape_ok(c: MailboxCalls) -> bool {
    match c {
        MailboxCalls::Version(_) => true,
        MailboxCalls::DefaultHook(_) => true,
        MailboxCalls::DefaultIsm(_) => true,
        MailboxCalls::Delivered(x) => x.id@.len() == 32,
        MailboxCalls::DeployedBlock(_) => true,
        MailboxCalls::Dispatch2(x) => x.recipient_address@.len() == 32 && x.hook@.len() == 20,
        MailboxCalls::Dispatch1(x) => x.recipient_address@.len() == 32,
        MailboxCalls::Dispatch0(x) => x.recipient_address@.len() == 32,
        MailboxCalls::Initialize(x) => x.owner@.len() == 20 && x.default_ism@.len() == 20 && x.default_hook@.len() == 20 && x.required_hook@.len() == 20,
        MailboxCalls::LatestDispatchedId(_) => true,
        MailboxCalls::LocalDomain(_) => true,
        MailboxCalls::Nonce(_) => true,
        MailboxCalls::Owner(_) => true,
        MailboxCalls::Process(x) => true,
        MailboxCalls::ProcessedAt(x) => x.id@.len() == 32,
        MailboxCalls::Processor(x) => x.id@.len() == 32,
        MailboxCalls::QuoteDispatchWithDestinationDomainAndRecipientAddressAndMetadata(x) => x.recipient_address@.len() == 32 && x.hook@.len() == 20,
        MailboxCalls::QuoteDispatch(x) => x.recipient_address@.len() == 32,
        MailboxCalls::QuoteDispatchWithDestinationDomainAndRecipientAddressAndDefaultHookMetadata(x) => x.recipient_address@.len() == 32,
        MailboxCalls::RecipientIsm(x) => x.recipient@.len() == 20,
        MailboxCalls::RenounceOwnership(_) => true,
        MailboxCalls::RequiredHook(_) => true,
        MailboxCalls::SetDefaultHook(x) => x.hook@.len() == 20,
        MailboxCalls::SetDefaultIsm(x) => x.module@.len() == 20,
        MailboxCalls::SetRequiredHook(x) => x.hook@.len() == 20,
        MailboxCalls::TransferOwnership(x) => x.new_owner@.len() == 20,
    }
}

/// The selector-prefixed calldata of a call variant.
pub open spec fn mc_enc(c: MailboxCalls) -> Seq<u8> {
    selector_of(mc_name(c), mc_tys(c)) + enc_params(mc_tys(c), mc_args(c))
}

impl MailboxCalls {
    /// Selector-prefixed calldata of this call, as the schema it names
    /// would encode it.
    #[verifier::rlimit(100)]
    #[verifier::spinoff_prover]
    pub fn encode(self) -> (r: Result<Vec<u8>, EncodingError>)
        ensures
            r matches Ok(b) ==> mc_shape_ok(self) && b@ == mc_enc(self),
            r == Err::<Vec<u8>, EncodingError>(EncodingError::ShapeMismatch) <==> !mc_shape_ok(
                self,
            ),
            r == Err::<Vec<u8>, EncodingError>(EncodingError::TooLong) <==> mc_shape_ok(self) && 4
                + enc_params(mc_tys(self), mc_args(self)).len() > usize::MAX,
    {
        match &self {
            MailboxCalls::Version(_) => call_nullary(&name_bytes("VERSION")),
            MailboxCalls::DefaultHook(_) => call_nullary(&name_bytes("defaultHook")),
            MailboxCalls::DefaultIsm(_) => call_nullary(&name_bytes("defaultIsm")),
            MailboxCalls::Delivered(x) => call_id(&name_bytes("delivered"), &x.id),
            MailboxCalls::DeployedBlock(_) => call_nullary(&name_bytes("deployedBlock")),
            MailboxCalls::Dispatch2(x) => call_d5(
                &name_bytes("dispatch"),
                x.destination_domain,
                &x.recipient_address,
                &x.message_body,
                &x.metadata,
                &x.hook,
            ),
            MailboxCalls::Dispatch1(x) => call_d4(
                &name_bytes("dispatch"),
                x.destination_domain,
                &x.recipient_address,
                &x.message_body,
                &x.hook_metadata,
            ),
            MailboxCalls::Dispatch0(x) => call_d3(&name_bytes("dispatch"), x.destination_domain, &x.recipient_address, &x.message_body),
            MailboxCalls::Initialize(x) => call_init(
                &name_bytes("initialize"),
                &x.owner,
                &x.default_ism,
                &x.default_hook,
                &x.required_hook,
            ),
            MailboxCalls::LatestDispatchedId(_) => call_nullary(&name_bytes("latestDispatchedId")),
            MailboxCalls::LocalDomain(_) => call_nullary(&name_bytes("localDomain")),
            MailboxCalls::Nonce(_) => call_nullary(&name_bytes("nonce")),
            MailboxCalls::Owner(_) => call_nullary(&name_bytes("owner")),
            MailboxCalls::Process(x) => call_process(&name_bytes("process"), &x.metadata, &x.message),
            MailboxCalls::ProcessedAt(x) => call_id(&name_bytes("processedAt"), &x.id),
            MailboxCalls::Processor(x) => call_id(&name_bytes("processor"), &x.id),
            MailboxCalls::QuoteDispatchWithDestinationDomainAndRecipientAddressAndMetadata(x) => call_d5(
                &name_bytes("quoteDispatch"),
                x.destination_domain,
                &x.recipient_address,
                &x.message_body,
                &x.metadata,
                &x.hook,
            ),
            MailboxCalls::QuoteDispatch(x) => call_d3(&name_bytes("quoteDispatch"), x.destination_domain, &x.recipient_address, &x.message_body),
            MailboxCalls::QuoteDispatchWithDestinationDomainAndRecipientAddressAndDefaultHookMetadata(x) => call_d4(
                &name_bytes("quoteDispatch"),
                x.destination_domain,
                &x.recipient_address,
                &x.message_body,
                &x.default_hook_metadata,
            ),
            MailboxCalls::RecipientIsm(x) => call_addr(&name_bytes("recipientIsm"), &x.recipient),
            MailboxCalls::RenounceOwnership(_) => call_nullary(&name_bytes("renounceOwnership")),
            MailboxCalls::RequiredHook(_) => call_nullary(&name_bytes("requiredHook")),
            MailboxCalls::SetDefaultHook(x) => call_addr(&name_bytes("setDefaultHook"), &x.hook),
            MailboxCalls::SetDefaultIsm(x) => call_addr(&name_bytes("setDefaultIsm"), &x.module),
            MailboxCalls::SetRequiredHook(x) => call_addr(&name_bytes("setRequiredHook"), &x.hook),
            MailboxCalls::TransferOwnership(x) => call_addr(&name_bytes("transferOwnership"), &x.new_owner),
        }
    }
}

/// The registry index that a call variant's schema stands at.
pub open spec fn mc_index(c: MailboxCalls) -> int {
    match c {
        MailboxCalls::Version(_) => 0,
        MailboxCalls::DefaultHook(_) => 1,
        MailboxCalls::DefaultIsm(_) => 2,
        MailboxCalls::Delivered(_) => 3,
        MailboxCalls::DeployedBlock(_) => 4,
        MailboxCalls::Dispatch2(_) => 5,
        MailboxCalls::Dispatch1(_) => 6,
        MailboxCalls::Dispatch0(_) => 7,
        MailboxCalls::Initialize(_) => 8,
        MailboxCalls::LatestDispatchedId(_) => 9,
        MailboxCalls::LocalDomain(_) => 10,
        MailboxCalls::Nonce(_) => 11,
        MailboxCalls::Owner(_) => 12,
        MailboxCalls::Process(_) => 13,
        MailboxCalls::ProcessedAt(_) => 14,
        MailboxCalls::Processor(_) => 15,
        MailboxCalls::QuoteDispatchWithDestinationDomainAndRecipientAddressAndMetadata(_) => 16,
        MailboxCalls::QuoteDispatch(_) => 17,
        MailboxCalls::QuoteDispatchWithDestinationDomainAndRecipientAddressAndDefaultHookMetadata(
            _,
        ) => 18,
        MailboxCalls::RecipientIsm(_) => 19,
        MailboxCalls::RenounceOwnership(_) => 20,
        MailboxCalls::RequiredHook(_) => 21,
        MailboxCalls::SetDefaultHook(_) => 22,
        MailboxCalls::SetDefaultIsm(_) => 23,
        MailboxCalls::SetRequiredHook(_) => 24,
        MailboxCalls::TransferOwnership(_) => 25,
    }
}

proof fn fm_id(id: Seq<u8>)
    requires
        id.len() == 32,
    ensures
        tys_valid(tys_id()),
        fields_match(args_id(id), tys_id()),
{
    assert(crate::value::val_matches(args_id(id)[0], tys_id()[0]));
}

proof fn fm_addr(a: Seq<u8>)
    requires
        a.len() == 20,
    ensures
        tys_valid(tys_addr()),
        fields_match(args_addr(a), tys_addr()),
{
    assert(crate::value::val_matches(args_addr(a)[0], tys_addr()[0]));
}

proof fn fm_d3(dd: u32, ra: Seq<u8>, mb: Seq<u8>)
    requires
        ra.len() == 32,
    ensures
        tys_valid(tys_dispatch3()),
        fields_match(args_dispatch3(dd, ra, mb), tys_dispatch3()),
{
    lemma_be_bytes_len(dd as nat, 4);
    assert(crate::value::val_matches(args_dispatch3(dd, ra, mb)[0], tys_dispatch3()[0]));
    assert(crate::value::val_matches(args_dispatch3(dd, ra, mb)[1], tys_dispatch3()[1]));
    assert(crate::value::val_matches(args_dispatch3(dd, ra, mb)[2], tys_dispatch3()[2]));
}

proof fn fm_d4(dd: u32, ra: Seq<u8>, mb: Seq<u8>, md: Seq<u8>)
    requires
        ra.len() == 32,
    ensures
        tys_valid(tys_dispatch4()),
        fields_match(args_dispatch4(dd, ra, mb, md), tys_dispatch4()),
{
    lemma_be_bytes_len(dd as nat, 4);
    assert(crate::value::val_matches(args_dispatch4(dd, ra, mb, md)[0], tys_dispatch4()[0]));
    assert(crate::value::val_matches(args_dispatch4(dd, ra, mb, md)[1], tys_dispatch4()[1]));
    assert(crate::value::val_matches(args_dispatch4(dd, ra, mb, md)[2], tys_dispatch4()[2]));
    assert(crate::value::val_matches(args_dispatch4(dd, ra, mb, md)[3], tys_dispatch4()[3]));
}

proof fn fm_d5(dd: u32, ra: Seq<u8>, mb: Seq<u8>, md: Seq<u8>, hk: Seq<u8>)
    requires
        ra.len() == 32,
        hk.len() == 20,
    ensures
        tys_valid(tys_dispatch5()),
        fields_match(args_dispatch5(dd, ra, mb, md, hk), tys_dispatch5()),
{
    lemma_be_bytes_len(dd as nat, 4);
    assert(crate::value::val_matches(args_dispatch5(dd, ra, mb, md, hk)[0], tys_dispatch5()[0]));
    assert(crate::value::val_matches(args_dispatch5(dd, ra, mb, md, hk)[1], tys_dispatch5()[1]));
    assert(crate::value::val_matches(args_dispatch5(dd, ra, mb, md, hk)[2], tys_dispatch5()[2]));
    assert(crate::value::val_matches(args_dispatch5(dd, ra, mb, md, hk)[3], tys_dispatch5()[3]));
    assert(crate::value::val_matches(args_dispatch5(dd, ra, mb, md, hk)[4], tys_dispatch5()[4]));
}

proof fn fm_init(a: Seq<u8>, b: Seq<u8>, c: Seq<u8>, d: Seq<u8>)
    requires
        a.len() == 20,
        b.len() == 20,
        c.len() == 20,
        d.len() == 20,
    ensures
        tys_valid(tys_init()),
        fields_match(args_init(a, b, c, d), tys_init()),
{
    assert(crate::value::val_matches(args_init(a, b, c, d)[0], tys_init()[0]));
    assert(crate::value::val_matches(args_init(a, b, c, d)[1], tys_init()[1]));
    assert(crate::value::val_matches(args_init(a, b, c, d)[2], tys_init()[2]));
    assert(crate::value::val_matches(args_init(a, b, c, d)[3], tys_init()[3]));
}

proof fn fm_process(m1: Seq<u8>, m2: Seq<u8>)
    ensures
        tys_valid(tys_process()),
        fields_match(args_process(m1, m2), tys_process()),
{
    assert(crate::value::val_matches(args_process(m1, m2)[0], tys_process()[0]));
    assert(crate::value::val_matches(args_process(m1, m2)[1], tys_process()[1]));
}

/// A well-shaped call variant's argument values match its schema's
/// descriptor list, and that list is valid.
pub proof fn lemma_mc_args_match(c: MailboxCalls)
    requires
        mc_shape_ok(c),
    ensures
        tys_valid(mc_tys(c)),
        fields_match(mc_args(c), mc_tys(c)),
{
    match c {
        MailboxCalls::Delivered(x) => fm_id(x.id@),
        MailboxCalls::Dispatch2(x) => fm_d5(
            x.destination_domain,
            x.recipient_address@,
            x.message_body@,
            x.metadata@,
            x.hook@,
        ),
        MailboxCalls::Dispatch1(x) => fm_d4(
            x.destination_domain,
            x.recipient_address@,
            x.message_body@,
            x.hook_metadata@,
        ),
        MailboxCalls::Dispatch0(x) => fm_d3(
            x.destination_domain,
            x.recipient_address@,
            x.message_body@,
        ),
        MailboxCalls::Initialize(x) => fm_init(
            x.owner@,
            x.default_ism@,
            x.default_hook@,
            x.required_hook@,
        ),
        MailboxCalls::Process(x) => fm_process(x.metadata@, x.message@),
        MailboxCalls::ProcessedAt(x) => fm_id(x.id@),
        MailboxCalls::Processor(x) => fm_id(x.id@),
        MailboxCalls::QuoteDispatchWithDestinationDomainAndRecipientAddressAndMetadata(x) => fm_d5(
            x.destination_domain,
            x.recipient_address@,
            x.message_body@,
            x.metadata@,
            x.hook@,
        ),
        MailboxCalls::QuoteDispatch(x) => fm_d3(
            x.destination_domain,
            x.recipient_address@,
            x.message_body@,
        ),
        MailboxCalls::QuoteDispatchWithDestinationDomainAndRecipientAddressAndDefaultHookMetadata(
            x,
        ) => fm_d4(
            x.destination_domain,
            x.recipient_address@,
            x.message_body@,
            x.default_hook_metadata@,
        ),
        MailboxCalls::RecipientIsm(x) => fm_addr(x.recipient@),
        MailboxCalls::SetDefaultHook(x) => fm_addr(x.hook@),
        MailboxCalls::SetDefaultIsm(x) => fm_addr(x.module@),
        MailboxCalls::SetRequiredHook(x) => fm_addr(x.hook@),
        MailboxCalls::TransferOwnership(x) => fm_addr(x.new_owner@),
        _ => {
            assert(mc_args(c).len() == 0 && mc_tys(c).len() == 0);
        },
    }
}

/// Multiplexer round trip for the typed calls: when the registered
/// selectors are pairwise distinct — a fact about the actual Keccak-256
/// digests, which this crate names but cannot compute — decoding a
/// well-shaped variant's own calldata reaches that variant's schema and
/// recovers every argument value exactly.
pub proof fn lemma_calls_roundtrip(mb: Mailbox, c: MailboxCalls)
    requires
        mb.wf(),
        mc_shape_ok(c),
        enc_params(mc_tys(c), mc_args(c)).len() < crate::words::pow256(32),
        crate::dispatch::selectors_distinct(mb.calls.schemas@),
    ensures
        dec_call(mb.calls.schemas@, mc_enc(c)) == Some((mc_index(c), mc_args(c))),
        mc_is(c, (mc_index(c), mc_args(c))),
{
    let schemas = mb.calls.schemas@;
    let i = mc_index(c);
    let ts = mc_tys(c);
    let vs = mc_args(c);
    let data = mc_enc(c);
    let s = schemas[i];
    assert(0 <= i < 26);
    assert(mailbox_call_at(s, i));
    assert(s.name@ == mc_name(c));
    assert(param_tys(s.inputs@) =~= ts);
    assert(s.selector@ == selector_of(mc_name(c), ts));
    assert(s.selector@.len() == 4);
    assert(data.take(4) =~= s.selector@);
    assert(data.skip(4) =~= enc_params(ts, vs));
    lemma_mc_args_match(c);
    crate::roundtrip::lemma_roundtrip(ts, vs);
    assert(crate::decode::dec_params(param_tys(s.inputs@), data.skip(4)) == Some(vs));
    assert forall|j: int|
        0 <= j < schemas.len() && j != i implies !((#[trigger] schemas[j]).selector@ == data.take(4)
        && crate::decode::dec_params(param_tys(schemas[j].inputs@), data.skip(4)) is Some) by {
        if j < i {
            assert(schemas[j].selector@ != schemas[i].selector@);
        } else {
            assert(schemas[i].selector@ != schemas[j].selector@);
        }
    }
    crate::dispatch::lemma_single_clean_candidate(schemas, data, i);
}


pub open spec fn args_ev_dispatch(sender: Seq<u8>, dest: u32, recip: Seq<u8>, msg: Seq<u8>) -> Seq<
    ValModel,
> {
    seq![
        ValModel::Address(sender),
        ValModel::Uint(be_bytes(dest as nat, 4)),
        ValModel::FixedBytes(recip),
        ValModel::Bytes(msg),
    ]
}

pub open spec fn args_ev_u8(v: u8) -> Seq<ValModel> {
    seq![ValModel::Uint(be_bytes(v as nat, 1))]
}

pub open spec fn args_2addr(a: Seq<u8>, b: Seq<u8>) -> Seq<ValModel> {
    seq![ValModel::Address(a), ValModel::Address(b)]
}

pub open spec fn args_ev_process(origin: u32, sender: Seq<u8>, recip: Seq<u8>) -> Seq<ValModel> {
    seq![
        ValModel::Uint(be_bytes(origin as nat, 4)),
        ValModel::FixedBytes(sender),
        ValModel::Address(recip),
    ]
}

/// The Dispatch event split, byte for byte: when the two event schemas
/// registered ahead of `Dispatch` carry other topic hashes — a fact
/// about the actual Keccak-256 digests, which this crate names but
/// cannot compute — a log whose topics are the Dispatch topic followed
/// by one 32-byte word per indexed field, and whose data is the
/// length-prefixed message, decodes to the Dispatch record: the three
/// indexed fields from the topics, the message from the data alone.
/// A one-member `bytes` block holds exactly the member it encodes.
#[verifier::spinoff_prover]
proof fn lemma_bytes_block_decodes(msg: Seq<u8>, data: Seq<u8>)
    requires
        data == enc_params(seq![AbiType::Bytes], seq![ValModel::Bytes(msg)]),
        data.len() < crate::words::pow256(32),
    ensures
        crate::decode::dec_one(AbiType::Bytes, data, 0) == Some(ValModel::Bytes(msg)),
{
    let bt = seq![AbiType::Bytes];
    let bv = seq![ValModel::Bytes(msg)];
    assert(crate::value::val_matches(bv[0], bt[0]));
    assert(tys_valid(bt) && fields_match(bv, bt));
    crate::roundtrip::lemma_roundtrip(bt, bv);
    assert(crate::decode::dec_fields(bt, data, 0) == Some(bv));
    assert(crate::decode::dec_one(AbiType::Bytes, data, 0) is Some) by {
        if crate::decode::dec_one(bt[0], data, 0) is None {
            assert(crate::decode::dec_fields(bt, data, 0) is None);
        }
    }
    let v = crate::decode::dec_one(AbiType::Bytes, data, 0)->Some_0;
    assert(bt.drop_first() =~= Seq::<AbiType>::empty());
    assert((seq![v] + Seq::<ValModel>::empty())[0] == v);
}

/// The Dispatch field list decodes its three topics and its data block
/// to exactly the four declared field values, using the topic list up.
#[verifier::spinoff_prover]
proof fn lemma_dispatch_fields_decode(
    fs: Seq<EventField>,
    sender: Seq<u8>,
    dest: u32,
    recip: Seq<u8>,
    msg: Seq<u8>,
    topics: Seq<Seq<u8>>,
    data: Seq<u8>,
)
    requires
        fs.len() == 4,
        fs[0].ty == AbiType::Address && fs[0].indexed,
        fs[1].ty == AbiType::Uint(32) && fs[1].indexed,
        fs[2].ty == AbiType::FixedBytes(32) && fs[2].indexed,
        fs[3].ty == AbiType::Bytes && !fs[3].indexed,
        topics.len() == 4,
        topics[1].len() == 32,
        topics[1].skip(12) == sender,
        topics[2].len() == 32,
        topics[2].skip(28) == be_bytes(dest as nat, 4),
        topics[3] == recip,
        recip.len() == 32,
        crate::decode::dec_one(AbiType::Bytes, data, 0) == Some(ValModel::Bytes(msg)),
    ensures
        crate::dispatch::dec_event_fields(fs, topics, 1, data, 0) == Some(
            args_ev_dispatch(sender, dest, recip, msg),
        ),
{
    let fr1 = fs.drop_first();
    let fr2 = fr1.drop_first();
    let fr3 = fr2.drop_first();
    let fr4 = fr3.drop_first();
    assert(fr1[0] == fs[1] && fr2[0] == fs[2] && fr3[0] == fs[3]);
    assert(fr4.len() == 0);
    assert(crate::dispatch::dec_event_fields(
        fr4,
        topics,
        4,
        data,
        crate::types::head_size(AbiType::Bytes),
    ) == Some(Seq::<ValModel>::empty()));
    let w3 = seq![ValModel::Bytes(msg)] + Seq::<ValModel>::empty();
    assert(crate::dispatch::dec_event_fields(fr3, topics, 4, data, 0) == Some(w3));
    assert(topics[3].subrange(0, 32) =~= recip);
    assert(crate::decode::dec_one(AbiType::FixedBytes(32), topics[3], 0) == Some(
        ValModel::FixedBytes(recip),
    ));
    let w2 = seq![ValModel::FixedBytes(recip)] + w3;
    assert(crate::dispatch::dec_event_fields(fr2, topics, 3, data, 0) == Some(w2));
    assert(topics[2].subrange(28, 32) =~= topics[2].skip(28));
    assert(crate::decode::dec_one(AbiType::Uint(32), topics[2], 0) == Some(
        ValModel::Uint(be_bytes(dest as nat, 4)),
    ));
    let w1 = seq![ValModel::Uint(be_bytes(dest as nat, 4))] + w2;
    assert(crate::dispatch::dec_event_fields(fr1, topics, 2, data, 0) == Some(w1));
    assert(topics[1].subrange(12, 32) =~= topics[1].skip(12));
    assert(crate::decode::dec_one(AbiType::Address, topics[1], 0) == Some(
        ValModel::Address(sender),
    ));
    let w0 = seq![ValModel::Address(sender)] + w1;
    assert(crate::dispatch::dec_event_fields(fs, topics, 1, data, 0) == Some(w0));
    assert(w0 =~= args_ev_dispatch(sender, dest, recip, msg));
}

/// The Dispatch event split, byte for byte: when the two event schemas
/// registered ahead of `Dispatch` carry other topic hashes — a fact
/// about the actual Keccak-256 digests, which this crate names but
/// cannot compute — a log whose topics are the Dispatch topic followed
/// by one 32-byte word per indexed field, and whose data is the
/// length-prefixed message, decodes to the Dispatch record: the three
/// indexed fields from the topics, the message from the data alone.
#[verifier::rlimit(100)]
#[verifier::spinoff_prover]
pub proof fn lemma_dispatch_log_split(
    mb: Mailbox,
    sender: Seq<u8>,
    dest: u32,
    recip: Seq<u8>,
    msg: Seq<u8>,
    topics: Seq<Seq<u8>>,
    data: Seq<u8>,
)
    requires
        mb.wf(),
        mb.events.events@[0].topic0@ != mb.events.events@[2].topic0@,
        mb.events.events@[1].topic0@ != mb.events.events@[2].topic0@,
        topics.len() == 4,
        topics[0] == mb.events.events@[2].topic0@,
        topics[1].len() == 32,
        topics[1].skip(12) == sender,
        topics[2].len() == 32,
        topics[2].skip(28) == be_bytes(dest as nat, 4),
        topics[3] == recip,
        recip.len() == 32,
        data == enc_params(seq![AbiType::Bytes], seq![ValModel::Bytes(msg)]),
        data.len() < crate::words::pow256(32),
    ensures
        crate::dispatch::dec_log(mb.events.events@, topics, data) == Some(
            (2int, args_ev_dispatch(sender, dest, recip, msg)),
        ),
{
    let events = mb.events.events@;
    let e2 = events[2];
    assert(mailbox_event_at(e2, 2));
    let fs = e2.fields@;
    assert(fs.len() == 4);
    assert(fs[0].ty == AbiType::Address && fs[0].indexed);
    assert(fs[1].ty == AbiType::Uint(32) && fs[1].indexed);
    assert(fs[2].ty == AbiType::FixedBytes(32) && fs[2].indexed);
    assert(fs[3].ty == AbiType::Bytes && !fs[3].indexed);
    let vs_all = args_ev_dispatch(sender, dest, recip, msg);
    lemma_bytes_block_decodes(msg, data);
    lemma_dispatch_fields_decode(fs, sender, dest, recip, msg, topics, data);
    // The two earlier schemas carry other topics, so Dispatch is the
    // first hit.
    let dr1 = events.drop_first();
    let dr2 = dr1.drop_first();
    assert(dr1[0] == events[1] && dr2[0] == events[2]);
    assert(crate::dispatch::dec_log(dr2, topics, data) == Some((0int, vs_all)));
    assert(crate::dispatch::dec_log(dr1, topics, data) == Some((1int, vs_all)));
    assert(crate::dispatch::dec_log(events, topics, data) == Some((2int, vs_all)));
}

/// Fields of the `Dispatch` event, back as plain values.
fn extract_ev_dispatch(values: &Vec<AbiValue>) -> (r: (Vec<u8>, u32, Vec<u8>, Vec<u8>))
    requires
        fields_match(vals_model(values@), ev_dispatch_tys()),
    ensures
        vals_model(values@) == args_ev_dispatch(r.0@, r.1, r.2@, r.3@),
        r.0@.len() == 20,
        r.2@.len() == 32,
{
    proof {
        crate::value::lemma_vals_model(values@);
        assert(crate::value::val_matches(vals_model(values@)[0], ev_dispatch_tys()[0]));
        assert(crate::value::val_matches(vals_model(values@)[1], ev_dispatch_tys()[1]));
        assert(crate::value::val_matches(vals_model(values@)[2], ev_dispatch_tys()[2]));
        assert(crate::value::val_matches(vals_model(values@)[3], ev_dispatch_tys()[3]));
    }
    let sender = values[0].address_value();
    let dest = extract_u32_of(&values[1]);
    let recip = values[2].fixed_bytes_value();
    let msg = values[3].bytes_value();
    proof {
        assert(vals_model(values@) =~= args_ev_dispatch(sender@, dest, recip@, msg@));
    }
    (sender, dest, recip, msg)
}

/// Field of the `Initialized` event.
fn extract_ev_u8(values: &Vec<AbiValue>) -> (r: u8)
    requires
        fields_match(vals_model(values@), seq![AbiType::Uint(8)]),
    ensures
        vals_model(values@) == args_ev_u8(r),
{
    proof {
        crate::value::lemma_vals_model(values@);
        assert(crate::value::val_matches(vals_model(values@)[0], seq![AbiType::Uint(8)][0]));
    }
    let v = extract_u8_of(&values[0]);
    proof {
        assert(vals_model(values@) =~= args_ev_u8(v));
    }
    v
}

/// Fields of the `OwnershipTransferred` event.
fn extract_2addr(values: &Vec<AbiValue>) -> (r: (Vec<u8>, Vec<u8>))
    requires
        fields_match(vals_model(values@), seq![AbiType::Address, AbiType::Address]),
    ensures
        vals_model(values@) == args_2addr(r.0@, r.1@),
        r.0@.len() == 20,
        r.1@.len() == 20,
{
    proof {
        crate::value::lemma_vals_model(values@);
        assert(crate::value::val_matches(
            vals_model(values@)[0],
            seq![AbiType::Address, AbiType::Address][0],
        ));
        assert(crate::value::val_matches(
            vals_model(values@)[1],
            seq![AbiType::Address, AbiType::Address][1],
        ));
    }
    let a = values[0].address_value();
    let b = values[1].address_value();
    proof {
        assert(vals_model(values@) =~= args_2addr(a@, b@));
    }
    (a, b)
}

/// Fields of the `Process` event.
fn extract_ev_process(values: &Vec<AbiValue>) -> (r: (u32, Vec<u8>, Vec<u8>))
    requires
        fields_match(vals_model(values@), ev_process_tys()),
    ensures
        vals_model(values@) == args_ev_process(r.0, r.1@, r.2@),
        r.1@.len() == 32,
        r.2@.len() == 20,
{
    proof {
        crate::value::lemma_vals_model(values@);
        assert(crate::value::val_matches(vals_model(values@)[0], ev_process_tys()[0]));
        assert(crate::value::val_matches(vals_model(values@)[1], ev_process_tys()[1]));
        assert(crate::value::val_matches(vals_model(values@)[2], ev_process_tys()[2]));
    }
    let origin = extract_u32_of(&values[0]);
    let sender = values[1].fixed_bytes_value();
    let recip = values[2].address_value();
    proof {
        assert(vals_model(values@) =~= args_ev_process(origin, sender@, recip@));
    }
    (origin, sender, recip)
}

/// Fields of the `DefaultHookSet` event.
#[derive(Debug, PartialEq, Eq)]
pub struct DefaultHookSetFilter {
    pub hook: Vec<u8>,
}

/// Fields of the `DefaultIsmSet` event.
#[derive(Debug, PartialEq, Eq)]
pub struct DefaultIsmSetFilter {
    pub module: Vec<u8>,
}

/// Fields of the `Dispatch` event.
#[derive(Debug, PartialEq, Eq)]
pub struct DispatchFilter {
    pub sender: Vec<u8>,
    pub destination: u32,
    pub recipient: Vec<u8>,
    pub message: Vec<u8>,
}

/// Fields of the `DispatchId` event.
#[derive(Debug, PartialEq, Eq)]
pub struct DispatchIdFilter {
    pub message_id: Vec<u8>,
}

/// Fields of the `Initialized` event.
#[derive(Debug, PartialEq, Eq)]
pub struct InitializedFilter {
    pub version: u8,
}

/// Fields of the `OwnershipTransferred` event.
#[derive(Debug, PartialEq, Eq)]
pub struct OwnershipTransferredFilter {
    pub previous_owner: Vec<u8>,
    pub new_owner: Vec<u8>,
}

/// Fields of the `Process` event.
#[derive(Debug, PartialEq, Eq)]
pub struct ProcessFilter {
    pub origin: u32,
    pub sender: Vec<u8>,
    pub recipient: Vec<u8>,
}

/// Fields of the `ProcessId` event.
#[derive(Debug, PartialEq, Eq)]
pub struct ProcessIdFilter {
    pub message_id: Vec<u8>,
}

/// Fields of the `RequiredHookSet` event.
#[derive(Debug, PartialEq, Eq)]
pub struct RequiredHookSetFilter {
    pub hook: Vec<u8>,
}

/// Every Mailbox event, tagged by the schema that decoded it; variants
/// stand in the registry's declaration order.
#[derive(Debug, PartialEq, Eq)]
pub enum MailboxEvents {
    DefaultHookSetFilter(DefaultHookSetFilter),
    DefaultIsmSetFilter(DefaultIsmSetFilter),
    DispatchFilter(DispatchFilter),
    DispatchIdFilter(DispatchIdFilter),
    InitializedFilter(InitializedFilter),
    OwnershipTransferredFilter(OwnershipTransferredFilter),
    ProcessFilter(ProcessFilter),
    ProcessIdFilter(ProcessIdFilter),
    RequiredHookSetFilter(RequiredHookSetFilter),
}

/// How a decoded event relates to the demultiplexer's hit: the variant
/// is the event schema the hit names, and the fields carry exactly the
/// decoded field values, indexed and non-indexed alike.
pub open spec fn me_is(e: MailboxEvents, kv: (int, Seq<ValModel>)) -> bool {
    match e {
        MailboxEvents::DefaultHookSetFilter(x) => kv.0 == 0 && kv.1 == args_addr(x.hook@),
        MailboxEvents::DefaultIsmSetFilter(x) => kv.0 == 1 && kv.1 == args_addr(x.module@),
        MailboxEvents::DispatchFilter(x) => kv.0 == 2 && kv.1 == args_ev_dispatch(
            x.sender@,
            x.destination,
            x.recipient@,
            x.message@,
        ),
        MailboxEvents::DispatchIdFilter(x) => kv.0 == 3 && kv.1 == args_id(x.message_id@),
        MailboxEvents::InitializedFilter(x) => kv.0 == 4 && kv.1 == args_ev_u8(x.version),
        MailboxEvents::OwnershipTransferredFilter(x) => kv.0 == 5 && kv.1 == args_2addr(
            x.previous_owner@,
            x.new_owner@,
        ),
        MailboxEvents::ProcessFilter(x) => kv.0 == 6 && kv.1 == args_ev_process(
            x.origin,
            x.sender@,
            x.recipient@,
        ),
        MailboxEvents::ProcessIdFilter(x) => kv.0 == 7 && kv.1 == args_id(x.message_id@),
        MailboxEvents::RequiredHookSetFilter(x) => kv.0 == 8 && kv.1 == args_addr(x.hook@),
    }
}

impl MailboxEvents {
    /// Route a raw log to the first Mailbox event schema whose topic
    /// hash equals the log's first topic and whose field decode
    /// succeeds, and hand back the typed record. An indexed field is
    /// read from its topic; the `message` payload of `Dispatch` is
    /// reconstructed exactly from the data bytes.
    #[verifier::rlimit(100)]
    #[verifier::spinoff_prover]
    pub fn decode_log(mb: &Mailbox, topics: &Vec<Vec<u8>>, data: &[u8]) -> (r: Result<
        MailboxEvents,
        DispatchError,
    >)
        requires
            mb.wf(),
        ensures
            match r {
                Ok(e) => crate::dispatch::dec_log(
                    mb.events.events@,
                    crate::dispatch::topics_model(topics@),
                    data@,
                ) matches Some(kv) && me_is(e, kv),
                Err(e) => {
                    &&& crate::dispatch::dec_log(
                        mb.events.events@,
                        crate::dispatch::topics_model(topics@),
                        data@,
                    ) is None
                    &&& (e == DispatchError::NoMatchingSchema
                        <==> !crate::dispatch::any_topic_match(
                        mb.events.events@,
                        crate::dispatch::topics_model(topics@),
                    ))
                },
            },
    {
        let dl = match mb.events.decode_log(topics, data) {
            Ok(dl) => dl,
            Err(e) => {
                return Err(e);
            },
        };
        let values = dl.values;
        let i = dl.schema;
        proof {
            let tpm = crate::dispatch::topics_model(topics@);
            crate::dispatch::lemma_dec_log_first(mb.events.events@, tpm, data@);
            assert(mailbox_event_at(mb.events.events@[i as int], i as int));
            assert(mb.events.events@[i as int].wf());
            let fields = mb.events.events@[i as int].fields@;
            assert forall|j: int|
                0 <= j < fields.len() implies ((#[trigger] fields[j]).indexed
                ==> !crate::types::is_dynamic(fields[j].ty)) by {
                assert(0 <= j < 4);
            }
            crate::dispatch::lemma_dec_event_fields_matches(fields, tpm, 1, data@, 0);
            assert(fields_match(vals_model(values@), field_tys(fields)));
        }
        match i {
            0 => {
                proof {
                    assert(field_tys(mb.events.events@[0].fields@) =~= tys_addr());
                }
                let a = extract_addr(&values);
                Ok(MailboxEvents::DefaultHookSetFilter(DefaultHookSetFilter { hook: a }))
            },
            1 => {
                proof {
                    assert(field_tys(mb.events.events@[1].fields@) =~= tys_addr());
                }
                let a = extract_addr(&values);
                Ok(MailboxEvents::DefaultIsmSetFilter(DefaultIsmSetFilter { module: a }))
            },
            2 => {
                proof {
                    assert(field_tys(mb.events.events@[2].fields@) =~= ev_dispatch_tys());
                }
                let (sender, destination, recipient, message) = extract_ev_dispatch(&values);
                Ok(
                    MailboxEvents::DispatchFilter(
                        DispatchFilter { sender, destination, recipient, message },
                    ),
                )
            },
            3 => {
                proof {
                    assert(field_tys(mb.events.events@[3].fields@) =~= tys_id());
                }
                let id = extract_id(&values);
                Ok(MailboxEvents::DispatchIdFilter(DispatchIdFilter { message_id: id }))
            },
            4 => {
                proof {
                    assert(field_tys(mb.events.events@[4].fields@) =~= seq![AbiType::Uint(8)]);
                }
                let v = extract_ev_u8(&values);
                Ok(MailboxEvents::InitializedFilter(InitializedFilter { version: v }))
            },
            5 => {
                proof {
                    assert(field_tys(mb.events.events@[5].fields@) =~= seq![
                        AbiType::Address,
                        AbiType::Address,
                    ]);
                }
                let (a, b) = extract_2addr(&values);
                Ok(
                    MailboxEvents::OwnershipTransferredFilter(
                        OwnershipTransferredFilter { previous_owner: a, new_owner: b },
                    ),
                )
            },
            6 => {
                proof {
                    assert(field_tys(mb.events.events@[6].fields@) =~= ev_process_tys());
                }
                let (origin, sender, recipient) = extract_ev_process(&values);
                Ok(MailboxEvents::ProcessFilter(ProcessFilter { origin, sender, recipient }))
            },
            7 => {
                proof {
                    assert(field_tys(mb.events.events@[7].fields@) =~= tys_id());
                }
                let id = extract_id(&values);
                Ok(MailboxEvents::ProcessIdFilter(ProcessIdFilter { message_id: id }))
            },
            8 => {
                proof {
                    assert(field_tys(mb.events.events@[8].fields@) =~= tys_addr());
                }
                let a = extract_addr(&values);
                Ok(MailboxEvents::RequiredHookSetFilter(RequiredHookSetFilter { hook: a }))
            },
            _ => {
                proof {
                    assert(false);
                }
                Err(DispatchError::NoMatchingSchema)
            },
        }
    }
}


pub open spec fn args_u32v(x: u32) -> Seq<ValModel> {
    seq![ValModel::Uint(be_bytes(x as nat, 4))]
}

pub open spec fn args_u48v(x: u64) -> Seq<ValModel> {
    seq![ValModel::Uint(be_bytes(x as nat, 6))]
}

pub open spec fn args_boolv(b: bool) -> Seq<ValModel> {
    seq![ValModel::Bool(b)]
}

pub open spec fn args_u256v(b: Seq<u8>) -> Seq<ValModel> {
    seq![ValModel::Uint(b)]
}

/// Decode a single return value of the given elementary type.
fn ret_one(t: AbiType, data: &[u8]) -> (r: Result<AbiValue, DecodingError>)
    requires
        crate::types::ty_valid(t),
    ensures
        match r {
            Ok(v) => crate::decode::dec_params(seq![t], data@) == Some(seq![v@])
                && crate::value::val_matches(v@, t),
            Err(_) => crate::decode::dec_params(seq![t], data@) is None,
        },
{
    let mut ts: Vec<AbiType> = Vec::new();
    ts.push(t);
    proof {
        assert(crate::types::tys_valid(ts@)) by {
            assert(ts@[0] == ts@[0]);
        }
    }
    let mut vs = match crate::decode::decode_params(&ts, data) {
        Ok(vs) => vs,
        Err(e) => {
            proof {
                assert(crate::decode::dec_params(ts@, data@) is None);
                assert(ts@ =~= seq![ts@[0int]]);
            }
            return Err(e);
        },
    };
    proof {
        crate::decode::lemma_dec_fields_matches(ts@, data@, 0);
        crate::value::lemma_vals_model(vs@);
        assert(crate::value::val_matches(vals_model(vs@)[0], ts@[0]));
        assert(ts@ =~= seq![ts@[0int]]);
    }
    let v = match vs.pop() {
        Some(v) => v,
        None => {
            proof {
                assert(false);
            }
            return Err(DecodingError::ShapeMismatch);
        },
    };
    proof {
        assert(vals_model(vs@.push(v)) =~= seq![v@]);
    }
    Ok(v)
}

/// Return value of `VERSION`.
#[derive(Debug, PartialEq, Eq)]
pub struct VersionReturn(pub u8);

impl VersionReturn {
    /// Decode the return data of this call.
    pub fn decode(data: &[u8]) -> (r: Result<Self, DecodingError>)
        ensures
            match r {
                Ok(x) => crate::decode::dec_params(seq![AbiType::Uint(8)], data@) == Some(args_ev_u8(x.0)),
                Err(_) => crate::decode::dec_params(seq![AbiType::Uint(8)], data@) is None,
            },
    {
        match ret_one(AbiType::Uint(8), data) {
            Ok(v) => {
            let x = extract_u8_of(&v);
                Ok(VersionReturn(x))
            },
            Err(e) => Err(e),
        }
    }
}

/// Return value of `defaultHook`.
#[derive(Debug, PartialEq, Eq)]
pub struct DefaultHookReturn(pub Vec<u8>);

impl DefaultHookReturn {
    /// Decode the return data of this call.
    pub fn decode(data: &[u8]) -> (r: Result<Self, DecodingError>)
        ensures
            match r {
                Ok(x) => crate::decode::dec_params(seq![AbiType::Address], data@) == Some(args_addr(x.0@)),
                Err(_) => crate::decode::dec_params(seq![AbiType::Address], data@) is None,
            },
    {
        match ret_one(AbiType::Address, data) {
            Ok(v) => {
            let x = v.address_value();
                Ok(DefaultHookReturn(x))
            },
            Err(e) => Err(e),
        }
    }
}

/// Return value of `defaultIsm`.
#[derive(Debug, PartialEq, Eq)]
pub struct DefaultIsmReturn(pub Vec<u8>);

impl DefaultIsmReturn {
    /// Decode the return data of this call.
    pub fn decode(data: &[u8]) -> (r: Result<Self, DecodingError>)
        ensures
            match r {
                Ok(x) => crate::decode::dec_params(seq![AbiType::Address], data@) == Some(args_addr(x.0@)),
                Err(_) => crate::decode::dec_params(seq![AbiType::Address], data@) is None,
            },
    {
        match ret_one(AbiType::Address, data) {
            Ok(v) => {
            let x = v.address_value();
                Ok(DefaultIsmReturn(x))
            },
            Err(e) => Err(e),
        }
    }
}

/// Return value of `delivered`.
#[derive(Debug, PartialEq, Eq)]
pub struct DeliveredReturn(pub bool);

impl DeliveredReturn {
    /// Decode the return data of this call.
    pub fn decode(data: &[u8]) -> (r: Result<Self, DecodingError>)
        ensures
            match r {
                Ok(x) => crate::decode::dec_params(seq![AbiType::Bool], data@) == Some(args_boolv(x.0)),
                Err(_) => crate::decode::dec_params(seq![AbiType::Bool], data@) is None,
            },
    {
        match ret_one(AbiType::Bool, data) {
            Ok(v) => {
            let x = v.bool_value();
                Ok(DeliveredReturn(x))
            },
            Err(e) => Err(e),
        }
    }
}

/// Return value of `deployedBlock`.
#[derive(Debug, PartialEq, Eq)]
pub struct DeployedBlockReturn(pub Vec<u8>);

impl DeployedBlockReturn {
    /// Decode the return data of this call.
    pub fn decode(data: &[u8]) -> (r: Result<Self, DecodingError>)
        ensures
            match r {
                Ok(x) => crate::decode::dec_params(seq![AbiType::Uint(256)], data@) == Some(args_u256v(x.0@)),
                Err(_) => crate::decode::dec_params(seq![AbiType::Uint(256)], data@) is None,
            },
    {
        match ret_one(AbiType::Uint(256), data) {
            Ok(v) => {
            let x = v.uint_bytes();
                Ok(DeployedBlockReturn(x))
            },
            Err(e) => Err(e),
        }
    }
}

/// Return value of the five-argument `dispatch`.
#[derive(Debug, PartialEq, Eq)]
pub struct Dispatch2Return(pub Vec<u8>);

impl Dispatch2Return {
    /// Decode the return data of this call.
    pub fn decode(data: &[u8]) -> (r: Result<Self, DecodingError>)
        ensures
            match r {
                Ok(x) => crate::decode::dec_params(seq![AbiType::FixedBytes(32)], data@) == Some(args_id(x.0@)),
                Err(_) => crate::decode::dec_params(seq![AbiType::FixedBytes(32)], data@) is None,
            },
    {
        match ret_one(AbiType::FixedBytes(32), data) {
            Ok(v) => {
            let x = v.fixed_bytes_value();
                Ok(Dispatch2Return(x))
            },
            Err(e) => Err(e),
        }
    }
}

/// Return value of the four-argument `dispatch`.
#[derive(Debug, PartialEq, Eq)]
pub struct Dispatch1Return(pub Vec<u8>);

impl Dispatch1Return {
    /// Decode the return data of this call.
    pub fn decode(data: &[u8]) -> (r: Result<Self, DecodingError>)
        ensures
            match r {
                Ok(x) => crate::decode::dec_params(seq![AbiType::FixedBytes(32)], data@) == Some(args_id(x.0@)),
                Err(_) => crate::decode::dec_params(seq![AbiType::FixedBytes(32)], data@) is None,
            },
    {
        match ret_one(AbiType::FixedBytes(32), data) {
            Ok(v) => {
            let x = v.fixed_bytes_value();
                Ok(Dispatch1Return(x))
            },
            Err(e) => Err(e),
        }
    }
}

/// Return value of the three-argument `dispatch`.
#[derive(Debug, PartialEq, Eq)]
pub struct Dispatch0Return(pub Vec<u8>);

impl Dispatch0Return {
    /// Decode the return data of this call.
    pub fn decode(data: &[u8]) -> (r: Result<Self, DecodingError>)
        ensures
            match r {
                Ok(x) => crate::decode::dec_params(seq![AbiType::FixedBytes(32)], data@) == Some(args_id(x.0@)),
                Err(_) => crate::decode::dec_params(seq![AbiType::FixedBytes(32)], data@) is None,
            },
    {
        match ret_one(AbiType::FixedBytes(32), data) {
            Ok(v) => {
            let x = v.fixed_bytes_value();
                Ok(Dispatch0Return(x))
            },
            Err(e) => Err(e),
        }
    }
}

/// Return value of `latestDispatchedId`.
#[derive(Debug, PartialEq, Eq)]
pub struct LatestDispatchedIdReturn(pub Vec<u8>);

impl LatestDispatchedIdReturn {
    /// Decode the return data of this call.
    pub fn decode(data: &[u8]) -> (r: Result<Self, DecodingError>)
        ensures
            match r {
                Ok(x) => crate::decode::dec_params(seq![AbiType::FixedBytes(32)], data@) == Some(args_id(x.0@)),
                Err(_) => crate::decode::dec_params(seq![AbiType::FixedBytes(32)], data@) is None,
            },
    {
        match ret_one(AbiType::FixedBytes(32), data) {
            Ok(v) => {
            let x = v.fixed_bytes_value();
                Ok(LatestDispatchedIdReturn(x))
            },
            Err(e) => Err(e),
        }
    }
}

/// Return value of `localDomain`.
#[derive(Debug, PartialEq, Eq)]
pub struct LocalDomainReturn(pub u32);

impl LocalDomainReturn {
    /// Decode the return data of this call.
    pub fn decode(data: &[u8]) -> (r: Result<Self, DecodingError>)
        ensures
            match r {
                Ok(x) => crate::decode::dec_params(seq![AbiType::Uint(32)], data@) == Some(args_u32v(x.0)),
                Err(_) => crate::decode::dec_params(seq![AbiType::Uint(32)], data@) is None,
            },
    {
        match ret_one(AbiType::Uint(32), data) {
            Ok(v) => {
            let x = extract_u32_of(&v);
                Ok(LocalDomainReturn(x))
            },
            Err(e) => Err(e),
        }
    }
}

/// Return value of `nonce`.
#[derive(Debug, PartialEq, Eq)]
pub struct NonceReturn(pub u32);

impl NonceReturn {
    /// Decode the return data of this call.
    pub fn decode(data: &[u8]) -> (r: Result<Self, DecodingError>)
        ensures
            match r {
                Ok(x) => crate::decode::dec_params(seq![AbiType::Uint(32)], data@) == Some(args_u32v(x.0)),
                Err(_) => crate::decode::dec_params(seq![AbiType::Uint(32)], data@) is None,
            },
    {
        match ret_one(AbiType::Uint(32), data) {
            Ok(v) => {
            let x = extract_u32_of(&v);
                Ok(NonceReturn(x))
            },
            Err(e) => Err(e),
        }
    }
}

/// Return value of `owner`.
#[derive(Debug, PartialEq, Eq)]
pub struct OwnerReturn(pub Vec<u8>);

impl OwnerReturn {
    /// Decode the return data of this call.
    pub fn decode(data: &[u8]) -> (r: Result<Self, DecodingError>)
        ensures
            match r {
                Ok(x) => crate::decode::dec_params(seq![AbiType::Address], data@) == Some(args_addr(x.0@)),
                Err(_) => crate::decode::dec_params(seq![AbiType::Address], data@) is None,
            },
    {
        match ret_one(AbiType::Address, data) {
            Ok(v) => {
            let x = v.address_value();
                Ok(OwnerReturn(x))
            },
            Err(e) => Err(e),
        }
    }
}

/// Return value of `processedAt`.
#[derive(Debug, PartialEq, Eq)]
pub struct ProcessedAtReturn(pub u64);

impl ProcessedAtReturn {
    /// Decode the return data of this call.
    pub fn decode(data: &[u8]) -> (r: Result<Self, DecodingError>)
        ensures
            match r {
                Ok(x) => crate::decode::dec_params(seq![AbiType::Uint(48)], data@) == Some(args_u48v(x.0)),
                Err(_) => crate::decode::dec_params(seq![AbiType::Uint(48)], data@) is None,
            },
    {
        match ret_one(AbiType::Uint(48), data) {
            Ok(v) => {
            let x = v.uint_u64();
            proof {
                crate::words::lemma_be_bytes_of_val(v@->Uint_0);
            }
                Ok(ProcessedAtReturn(x))
            },
            Err(e) => Err(e),
        }
    }
}

/// Return value of `processor`.
#[derive(Debug, PartialEq, Eq)]
pub struct ProcessorReturn(pub Vec<u8>);

impl ProcessorReturn {
    /// Decode the return data of this call.
    pub fn decode(data: &[u8]) -> (r: Result<Self, DecodingError>)
        ensures
            match r {
                Ok(x) => crate::decode::dec_params(seq![AbiType::Address], data@) == Some(args_addr(x.0@)),
                Err(_) => crate::decode::dec_params(seq![AbiType::Address], data@) is None,
            },
    {
        match ret_one(AbiType::Address, data) {
            Ok(v) => {
            let x = v.address_value();
                Ok(ProcessorReturn(x))
            },
            Err(e) => Err(e),
        }
    }
}

/// Return value of the five-argument `quoteDispatch`.
#[derive(Debug, PartialEq, Eq)]
pub struct QuoteDispatchWithDestinationDomainAndRecipientAddressAndMetadataReturn {
    pub fee: Vec<u8>,
}

impl QuoteDispatchWithDestinationDomainAndRecipientAddressAndMetadataReturn {
    /// Decode the return data of this call.
    pub fn decode(data: &[u8]) -> (r: Result<Self, DecodingError>)
        ensures
            match r {
                Ok(x) => crate::decode::dec_params(seq![AbiType::Uint(256)], data@) == Some(args_u256v(x.fee@)),
                Err(_) => crate::decode::dec_params(seq![AbiType::Uint(256)], data@) is None,
            },
    {
        match ret_one(AbiType::Uint(256), data) {
            Ok(v) => {
            let x = v.uint_bytes();
                Ok(QuoteDispatchWithDestinationDomainAndRecipientAddressAndMetadataReturn { fee: x })
            },
            Err(e) => Err(e),
        }
    }
}

/// Return value of the three-argument `quoteDispatch`.
#[derive(Debug, PartialEq, Eq)]
pub struct QuoteDispatchReturn {
    pub fee: Vec<u8>,
}

impl QuoteDispatchReturn {
    /// Decode the return data of this call.
    pub fn decode(data: &[u8]) -> (r: Result<Self, DecodingError>)
        ensures
            match r {
                Ok(x) => crate::decode::dec_params(seq![AbiType::Uint(256)], data@) == Some(args_u256v(x.fee@)),
                Err(_) => crate::decode::dec_params(seq![AbiType::Uint(256)], data@) is None,
            },
    {
        match ret_one(AbiType::Uint(256), data) {
            Ok(v) => {
            let x = v.uint_bytes();
                Ok(QuoteDispatchReturn { fee: x })
            },
            Err(e) => Err(e),
        }
    }
}

/// Return value of the four-argument `quoteDispatch`.
#[derive(Debug, PartialEq, Eq)]
pub struct QuoteDispatchWithDestinationDomainAndRecipientAddressAndDefaultHookMetadataReturn {
    pub fee: Vec<u8>,
}

impl QuoteDispatchWithDestinationDomainAndRecipientAddressAndDefaultHookMetadataReturn {
    /// Decode the return data of this call.
    pub fn decode(data: &[u8]) -> (r: Result<Self, DecodingError>)
        ensures
            match r {
                Ok(x) => crate::decode::dec_params(seq![AbiType::Uint(256)], data@) == Some(args_u256v(x.fee@)),
                Err(_) => crate::decode::dec_params(seq![AbiType::Uint(256)], data@) is None,
            },
    {
        match ret_one(AbiType::Uint(256), data) {
            Ok(v) => {
            let x = v.uint_bytes();
                Ok(QuoteDispatchWithDestinationDomainAndRecipientAddressAndDefaultHookMetadataReturn { fee: x })
            },
            Err(e) => Err(e),
        }
    }
}

/// Return value of `recipientIsm`.
#[derive(Debug, PartialEq, Eq)]
pub struct RecipientIsmReturn(pub Vec<u8>);

impl RecipientIsmReturn {
    /// Decode the return data of this call.
    pub fn decode(data: &[u8]) -> (r: Result<Self, DecodingError>)
        ensures
            match r {
                Ok(x) => crate::decode::dec_params(seq![AbiType::Address], data@) == Some(args_addr(x.0@)),
                Err(_) => crate::decode::dec_params(seq![AbiType::Address], data@) is None,
            },
    {
        match ret_one(AbiType::Address, data) {
            Ok(v) => {
            let x = v.address_value();
                Ok(RecipientIsmReturn(x))
            },
            Err(e) => Err(e),
        }
    }
}

/// Return value of `requiredHook`.
#[derive(Debug, PartialEq, Eq)]
pub struct RequiredHookReturn(pub Vec<u8>);

impl RequiredHookReturn {
    /// Decode the return data of this call.
    pub fn decode(data: &[u8]) -> (r: Result<Self, DecodingError>)
        ensures
            match r {
                Ok(x) => crate::decode::dec_params(seq![AbiType::Address], data@) == Some(args_addr(x.0@)),
                Err(_) => crate::decode::dec_params(seq![AbiType::Address], data@) is None,
            },
    {
        match ret_one(AbiType::Address, data) {
            Ok(v) => {
            let x = v.address_value();
                Ok(RequiredHookReturn(x))
            },
            Err(e) => Err(e),
        }
    }
}


impl core::convert::From<VersionCall> for MailboxCalls {
    fn from(var: VersionCall) -> (r: Self)
        ensures
            r == MailboxCalls::Version(var),
    {
        MailboxCalls::Version(var)
    }
}

impl vstd::std_specs::convert::FromSpecImpl<VersionCall> for MailboxCalls {
    open spec fn obeys_from_spec() -> bool {
        true
    }

    open spec fn from_spec(var: VersionCall) -> Self {
        MailboxCalls::Version(var)
    }
}

impl core::convert::From<DefaultHookCall> for MailboxCalls {
    fn from(var: DefaultHookCall) -> (r: Self)
        ensures
            r == MailboxCalls::DefaultHook(var),
    {
        MailboxCalls::DefaultHook(var)
    }
}

impl vstd::std_specs::convert::FromSpecImpl<DefaultHookCall> for MailboxCalls {
    open spec fn obeys_from_spec() -> bool {
        true
    }

    open spec fn from_spec(var: DefaultHookCall) -> Self {
        MailboxCalls::DefaultHook(var)
    }
}

impl core::convert::From<DefaultIsmCall> for MailboxCalls {
    fn from(var: DefaultIsmCall) -> (r: Self)
        ensures
            r == MailboxCalls::DefaultIsm(var),
    {
        MailboxCalls::DefaultIsm(var)
    }
}

impl vstd::std_specs::convert::FromSpecImpl<DefaultIsmCall> for MailboxCalls {
    open spec fn obeys_from_spec() -> bool {
        true
    }

    open spec fn from_spec(var: DefaultIsmCall) -> Self {
        MailboxCalls::DefaultIsm(var)
    }
}

impl core::convert::From<DeliveredCall> for MailboxCalls {
    fn from(var: DeliveredCall) -> (r: Self)
        ensures
            r == MailboxCalls::Delivered(var),
    {
        MailboxCalls::Delivered(var)
    }
}

impl vstd::std_specs::convert::FromSpecImpl<DeliveredCall> for MailboxCalls {
    open spec fn obeys_from_spec() -> bool {
        true
    }

    open spec fn from_spec(var: DeliveredCall) -> Self {
        MailboxCalls::Delivered(var)
    }
}

impl core::convert::From<DeployedBlockCall> for MailboxCalls {
    fn from(var: DeployedBlockCall) -> (r: Self)
        ensures
            r == MailboxCalls::DeployedBlock(var),
    {
        MailboxCalls::DeployedBlock(var)
    }
}

impl vstd::std_specs::convert::FromSpecImpl<DeployedBlockCall> for MailboxCalls {
    open spec fn obeys_from_spec() -> bool {
        true
    }

    open spec fn from_spec(var: DeployedBlockCall) -> Self {
        MailboxCalls::DeployedBlock(var)
    }
}

impl core::convert::From<Dispatch2Call> for MailboxCalls {
    fn from(var: Dispatch2Call) -> (r: Self)
        ensures
            r == MailboxCalls::Dispatch2(var),
    {
        MailboxCalls::Dispatch2(var)
    }
}

impl vstd::std_specs::convert::FromSpecImpl<Dispatch2Call> for MailboxCalls {
    open spec fn obeys_from_spec() -> bool {
        true
    }

    open spec fn from_spec(var: Dispatch2Call) -> Self {
        MailboxCalls::Dispatch2(var)
    }
}

impl core::convert::From<Dispatch1Call> for MailboxCalls {
    fn from(var: Dispatch1Call) -> (r: Self)
        ensures
            r == MailboxCalls::Dispatch1(var),
    {
        MailboxCalls::Dispatch1(var)
    }
}

impl vstd::std_specs::convert::FromSpecImpl<Dispatch1Call> for MailboxCalls {
    open spec fn obeys_from_spec() -> bool {
        true
    }

    open spec fn from_spec(var: Dispatch1Call) -> Self {
        MailboxCalls::Dispatch1(var)
    }
}

impl core::convert::From<Dispatch0Call> for MailboxCalls {
    fn from(var: Dispatch0Call) -> (r: Self)
        ensures
            r == MailboxCalls::Dispatch0(var),
    {
        MailboxCalls::Dispatch0(var)
    }
}

impl vstd::std_specs::convert::FromSpecImpl<Dispatch0Call> for MailboxCalls {
    open spec fn obeys_from_spec() -> bool {
        true
    }

    open spec fn from_spec(var: Dispatch0Call) -> Self {
        MailboxCalls::Dispatch0(var)
    }
}

impl core::convert::From<InitializeCall> for MailboxCalls {
    fn from(var: InitializeCall) -> (r: Self)
        ensures
            r == MailboxCalls::Initialize(var),
    {
        MailboxCalls::Initialize(var)
    }
}

impl vstd::std_specs::convert::FromSpecImpl<InitializeCall> for MailboxCalls {
    open spec fn obeys_from_spec() -> bool {
        true
    }

    open spec fn from_spec(var: InitializeCall) -> Self {
        MailboxCalls::Initialize(var)
    }
}

impl core::convert::From<LatestDispatchedIdCall> for MailboxCalls {
    fn from(var: LatestDispatchedIdCall) -> (r: Self)
        ensures
            r == MailboxCalls::LatestDispatchedId(var),
    {
        MailboxCalls::LatestDispatchedId(var)
    }
}

impl vstd::std_specs::convert::FromSpecImpl<LatestDispatchedIdCall> for MailboxCalls {
    open spec fn obeys_from_spec() -> bool {
        true
    }

    open spec fn from_spec(var: LatestDispatchedIdCall) -> Self {
        MailboxCalls::LatestDispatchedId(var)
    }
}

impl core::convert::From<LocalDomainCall> for MailboxCalls {
    fn from(var: LocalDomainCall) -> (r: Self)
        ensures
            r == MailboxCalls::LocalDomain(var),
    {
        MailboxCalls::LocalDomain(var)
    }
}

impl vstd::std_specs::convert::FromSpecImpl<LocalDomainCall> for MailboxCalls {
    open spec fn obeys_from_spec() -> bool {
        true
    }

    open spec fn from_spec(var: LocalDomainCall) -> Self {
        MailboxCalls::LocalDomain(var)
    }
}

impl core::convert::From<NonceCall> for MailboxCalls {
    fn from(var: NonceCall) -> (r: Self)
        ensures
            r == MailboxCalls::Nonce(var),
    {
        MailboxCalls::Nonce(var)
    }
}

impl vstd::std_specs::convert::FromSpecImpl<NonceCall> for MailboxCalls {
    open spec fn obeys_from_spec() -> bool {
        true
    }

    open spec fn from_spec(var: NonceCall) -> Self {
        MailboxCalls::Nonce(var)
    }
}

impl core::convert::From<OwnerCall> for MailboxCalls {
    fn from(var: OwnerCall) -> (r: Self)
        ensures
            r == MailboxCalls::Owner(var),
    {
        MailboxCalls::Owner(var)
    }
}

impl vstd::std_specs::convert::FromSpecImpl<OwnerCall> for MailboxCalls {
    open spec fn obeys_from_spec() -> bool {
        true
    }

    open spec fn from_spec(var: OwnerCall) -> Self {
        MailboxCalls::Owner(var)
    }
}

impl core::convert::From<ProcessCall> for MailboxCalls {
    fn from(var: ProcessCall) -> (r: Self)
        ensures
            r == MailboxCalls::Process(var),
    {
        MailboxCalls::Process(var)
    }
}

impl vstd::std_specs::convert::FromSpecImpl<ProcessCall> for MailboxCalls {
    open spec fn obeys_from_spec() -> bool {
        true
    }

    open spec fn from_spec(var: ProcessCall) -> Self {
        MailboxCalls::Process(var)
    }
}

impl core::convert::From<ProcessedAtCall> for MailboxCalls {
    fn from(var: ProcessedAtCall) -> (r: Self)
        ensures
            r == MailboxCalls::ProcessedAt(var),
    {
        MailboxCalls::ProcessedAt(var)
    }
}

impl vstd::std_specs::convert::FromSpecImpl<ProcessedAtCall> for MailboxCalls {
    open spec fn obeys_from_spec() -> bool {
        true
    }

    open spec fn from_spec(var: ProcessedAtCall) -> Self {
        MailboxCalls::ProcessedAt(var)
    }
}

impl core::convert::From<ProcessorCall> for MailboxCalls {
    fn from(var: ProcessorCall) -> (r: Self)
        ensures
            r == MailboxCalls::Processor(var),
    {
        MailboxCalls::Processor(var)
    }
}

impl vstd::std_specs::convert::FromSpecImpl<ProcessorCall> for MailboxCalls {
    open spec fn obeys_from_spec() -> bool {
        true
    }

    open spec fn from_spec(var: ProcessorCall) -> Self {
        MailboxCalls::Processor(var)
    }
}

impl core::convert::From<QuoteDispatchWithDestinationDomainAndRecipientAddressAndMetadataCall> for MailboxCalls {
    fn from(var: QuoteDispatchWithDestinationDomainAndRecipientAddressAndMetadataCall) -> (r: Self)
        ensures
            r == MailboxCalls::QuoteDispatchWithDestinationDomainAndRecipientAddressAndMetadata(var),
    {
        MailboxCalls::QuoteDispatchWithDestinationDomainAndRecipientAddressAndMetadata(var)
    }
}

impl vstd::std_specs::convert::FromSpecImpl<QuoteDispatchWithDestinationDomainAndRecipientAddressAndMetadataCall> for MailboxCalls {
    open spec fn obeys_from_spec() -> bool {
        true
    }

    open spec fn from_spec(var: QuoteDispatchWithDestinationDomainAndRecipientAddressAndMetadataCall) -> Self {
        MailboxCalls::QuoteDispatchWithDestinationDomainAndRecipientAddressAndMetadata(var)
    }
}

impl core::convert::From<QuoteDispatchCall> for MailboxCalls {
    fn from(var: QuoteDispatchCall) -> (r: Self)
        ensures
            r == MailboxCalls::QuoteDispatch(var),
    {
        MailboxCalls::QuoteDispatch(var)
    }
}

impl vstd::std_specs::convert::FromSpecImpl<QuoteDispatchCall> for MailboxCalls {
    open spec fn obeys_from_spec() -> bool {
        true
    }

    open spec fn from_spec(var: QuoteDispatchCall) -> Self {
        MailboxCalls::QuoteDispatch(var)
    }
}

impl core::convert::From<QuoteDispatchWithDestinationDomainAndRecipientAddressAndDefaultHookMetadataCall> for MailboxCalls {
    fn from(var: QuoteDispatchWithDestinationDomainAndRecipientAddressAndDefaultHookMetadataCall) -> (r: Self)
        ensures
            r == MailboxCalls::QuoteDispatchWithDestinationDomainAndRecipientAddressAndDefaultHookMetadata(var),
    {
        MailboxCalls::QuoteDispatchWithDestinationDomainAndRecipientAddressAndDefaultHookMetadata(var)
    }
}

impl vstd::std_specs::convert::FromSpecImpl<QuoteDispatchWithDestinationDomainAndRecipientAddressAndDefaultHookMetadataCall> for MailboxCalls {
    open spec fn obeys_from_spec() -> bool {
        true
    }

    open spec fn from_spec(var: QuoteDispatchWithDestinationDomainAndRecipientAddressAndDefaultHookMetadataCall) -> Self {
        MailboxCalls::QuoteDispatchWithDestinationDomainAndRecipientAddressAndDefaultHookMetadata(var)
    }
}

impl core::convert::From<RecipientIsmCall> for MailboxCalls {
    fn from(var: RecipientIsmCall) -> (r: Self)
        ensures
            r == MailboxCalls::RecipientIsm(var),
    {
        MailboxCalls::RecipientIsm(var)
    }
}

impl vstd::std_specs::convert::FromSpecImpl<RecipientIsmCall> for MailboxCalls {
    open spec fn obeys_from_spec() -> bool {
        true
    }

    open spec fn from_spec(var: RecipientIsmCall) -> Self {
        MailboxCalls::RecipientIsm(var)
    }
}

impl core::convert::From<RenounceOwnershipCall> for MailboxCalls {
    fn from(var: RenounceOwnershipCall) -> (r: Self)
        ensures
            r == MailboxCalls::RenounceOwnership(var),
    {
        MailboxCalls::RenounceOwnership(var)
    }
}

impl vstd::std_specs::convert::FromSpecImpl<RenounceOwnershipCall> for MailboxCalls {
    open spec fn obeys_from_spec() -> bool {
        true
    }

    open spec fn from_spec(var: RenounceOwnershipCall) -> Self {
        MailboxCalls::RenounceOwnership(var)
    }
}

impl core::convert::From<RequiredHookCall> for MailboxCalls {
    fn from(var: RequiredHookCall) -> (r: Self)
        ensures
            r == MailboxCalls::RequiredHook(var),
    {
        MailboxCalls::RequiredHook(var)
    }
}

impl vstd::std_specs::convert::FromSpecImpl<RequiredHookCall> for MailboxCalls {
    open spec fn obeys_from_spec() -> bool {
        true
    }

    open spec fn from_spec(var: RequiredHookCall) -> Self {
        MailboxCalls::RequiredHook(var)
    }
}

impl core::convert::From<SetDefaultHookCall> for MailboxCalls {
    fn from(var: SetDefaultHookCall) -> (r: Self)
        ensures
            r == MailboxCalls::SetDefaultHook(var),
    {
        MailboxCalls::SetDefaultHook(var)
    }
}

impl vstd::std_specs::convert::FromSpecImpl<SetDefaultHookCall> for MailboxCalls {
    open spec fn obeys_from_spec() -> bool {
        true
    }

    open spec fn from_spec(var: SetDefaultHookCall) -> Self {
        MailboxCalls::SetDefaultHook(var)
    }
}

impl core::convert::From<SetDefaultIsmCall> for MailboxCalls {
    fn from(var: SetDefaultIsmCall) -> (r: Self)
        ensures
            r == MailboxCalls::SetDefaultIsm(var),
    {
        MailboxCalls::SetDefaultIsm(var)
    }
}

impl vstd::std_specs::convert::FromSpecImpl<SetDefaultIsmCall> for MailboxCalls {
    open spec fn obeys_from_spec() -> bool {
        true
    }

    open spec fn from_spec(var: SetDefaultIsmCall) -> Self {
        MailboxCalls::SetDefaultIsm(var)
    }
}

impl core::convert::From<SetRequiredHookCall> for MailboxCalls {
    fn from(var: SetRequiredHookCall) -> (r: Self)
        ensures
            r == MailboxCalls::SetRequiredHook(var),
    {
        MailboxCalls::SetRequiredHook(var)
    }
}

impl vstd::std_specs::convert::FromSpecImpl<SetRequiredHookCall> for MailboxCalls {
    open spec fn obeys_from_spec() -> bool {
        true
    }

    open spec fn from_spec(var: SetRequiredHookCall) -> Self {
        MailboxCalls::SetRequiredHook(var)
    }
}

impl core::convert::From<TransferOwnershipCall> for MailboxCalls {
    fn from(var: TransferOwnershipCall) -> (r: Self)
        ensures
            r == MailboxCalls::TransferOwnership(var),
    {
        MailboxCalls::TransferOwnership(var)
    }
}

impl vstd::std_specs::convert::FromSpecImpl<TransferOwnershipCall> for MailboxCalls {
    open spec fn obeys_from_spec() -> bool {
        true
    }

    open spec fn from_spec(var: TransferOwnershipCall) -> Self {
        MailboxCalls::TransferOwnership(var)
    }
}


} // verus!
