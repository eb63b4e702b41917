//! Schemas and the selector table: the registry that maps hash-derived
//! selectors back to typed schemas. Registration order is kept, and
//! several schemas may share one selector; collisions are preserved as
//! multiple entries, never overwritten.

use vstd::prelude::*;

use crate::errors::SchemaError;
use crate::keccak::{keccak256, selector_of, topic_of};
use crate::signature::{canon_list, canon_ty_x, lemma_canon_list_take, signature_bytes};
use crate::types::{lemma_tys_valid_take, tys_valid, AbiType};
use crate::value::bytes_dup;

verus! {

/// Mutability class of a function schema.
#[derive(Clone, Copy, Debug, PartialEq, Eq, Structural)]
pub enum Mutability {
    ReadOnly,
    StateChanging,
    Payable,
}

/// One named input parameter of a function schema.
#[derive(Debug)]
pub struct Param {
    pub name: Vec<u8>,
    pub ty: AbiType,
}

/// The descriptor types of a parameter list.
pub open spec fn param_tys(ps: Seq<Param>) -> Seq<AbiType> {
    Seq::new(ps.len(), |i: int| ps[i].ty)
}

/// A function schema: name, inputs, outputs, mutability, and the 4-byte
/// selector derived from the canonical signature.
#[derive(Debug)]
pub struct Schema {
    pub name: Vec<u8>,
    pub inputs: Vec<Param>,
    pub outputs: Vec<AbiType>,
    pub mutability: Mutability,
    pub selector: Vec<u8>,
}

impl Schema {
    /// A schema is well formed when its descriptors are legal and its
    /// selector is the hash-derived one for its own signature.
    pub open spec fn wf(&self) -> bool {
        &&& tys_valid(param_tys(self.inputs@))
        &&& tys_valid(self.outputs@)
        &&& self.selector@ == selector_of(self.name@, param_tys(self.inputs@))
        &&& self.selector@.len() == 4
    }
}

/// One field of an event schema.
#[derive(Debug)]
pub struct EventField {
    pub name: Vec<u8>,
    pub ty: AbiType,
    pub indexed: bool,
}

/// The descriptor types of an event field list.
pub open spec fn field_tys(fs: Seq<EventField>) -> Seq<AbiType> {
    Seq::new(fs.len(), |i: int| fs[i].ty)
}

/// An event schema: name, ordered fields with their indexed flags, and
/// the 32-byte topic derived from the canonical signature.
#[derive(Debug)]
pub struct EventSchema {
    pub name: Vec<u8>,
    pub fields: Vec<EventField>,
    pub topic0: Vec<u8>,
}

impl EventSchema {
    /// Well-formedness mirrors `Schema::wf` with the full-width topic.
    pub open spec fn wf(&self) -> bool {
        &&& tys_valid(field_tys(self.fields@))
        &&& self.topic0@ == topic_of(self.name@, field_tys(self.fields@))
        &&& self.topic0@.len() == 32
    }
}

/// Compare two byte strings.
pub fn bytes_eq(a: &Vec<u8>, b: &Vec<u8>) -> (r: bool)
    ensures
        r == (a@ == b@),
{
    let n = a.len();
    if b.len() != n {
        proof {
            assert(a@.len() != b@.len());
        }
        return false;
    }
    let mut i: usize = 0;
    while i < n
        invariant
            n == a@.len(),
            n == b@.len(),
            0 <= i <= n,
            forall|j: int| 0 <= j < i ==> a@[j] == b@[j],
        decreases n - i,
    {
        if a[i] != b[i] {
            return false;
        }
        i = i + 1;
    }
    proof {
        assert(a@ =~= b@);
    }
    true
}

/// Whether every input parameter's descriptor is well formed.
fn params_all_valid(ps: &Vec<Param>) -> (r: bool)
    ensures
        r == tys_valid(param_tys(ps@)),
{
    let n = ps.len();
    let mut i: usize = 0;
    while i < n
        invariant
            n == ps@.len(),
            0 <= i <= n,
            tys_valid(param_tys(ps@).take(i as int)),
        decreases n - i,
    {
        let ok = ps[i].ty.valid();
        proof {
            lemma_tys_valid_take(param_tys(ps@), i as int);
        }
        if !ok {
            proof {
                assert(!crate::types::ty_valid(param_tys(ps@)[i as int]));
            }
            return false;
        }
        i = i + 1;
    }
    proof {
        assert(param_tys(ps@).take(n as int) =~= param_tys(ps@));
    }
    true
}

/// Whether every event field's descriptor is well formed.
fn fields_all_valid(fs: &Vec<EventField>) -> (r: bool)
    ensures
        r == tys_valid(field_tys(fs@)),
{
    let n = fs.len();
    let mut i: usize = 0;
    while i < n
        invariant
            n == fs@.len(),
            0 <= i <= n,
            tys_valid(field_tys(fs@).take(i as int)),
        decreases n - i,
    {
        let ok = fs[i].ty.valid();
        proof {
            lemma_tys_valid_take(field_tys(fs@), i as int);
        }
        if !ok {
            proof {
                assert(!crate::types::ty_valid(field_tys(fs@)[i as int]));
            }
            return false;
        }
        i = i + 1;
    }
    proof {
        assert(field_tys(fs@).take(n as int) =~= field_tys(fs@));
    }
    true
}

/// Whether every output descriptor is well formed.
pub fn tys_all_valid(ts: &Vec<AbiType>) -> (r: bool)
    ensures
        r == tys_valid(ts@),
{
    let n = ts.len();
    let mut i: usize = 0;
    while i < n
        invariant
            n == ts@.len(),
            0 <= i <= n,
            tys_valid(ts@.take(i as int)),
        decreases n - i,
    {
        let ok = ts[i].valid();
        proof {
            lemma_tys_valid_take(ts@, i as int);
        }
        if !ok {
            proof {
                assert(!crate::types::ty_valid(ts@[i as int]));
            }
            return false;
        }
        i = i + 1;
    }
    proof {
        assert(ts@.take(n as int) =~= ts@);
    }
    true
}

/// The canonical signature of a named parameter list.
fn signature_of_params(name: &Vec<u8>, ps: &Vec<Param>) -> (r: Vec<u8>)
    ensures
        r@ == signature_bytes(name@, param_tys(ps@)),
{
    let mut out = bytes_dup(name);
    out.push(40);
    let n = ps.len();
    let mut i: usize = 0;
    proof {
        assert(out@ =~= name@ + seq![40u8] + canon_list(param_tys(ps@).take(0)));
    }
    while i < n
        invariant
            n == ps@.len(),
            0 <= i <= n,
            out@ == name@ + seq![40u8] + canon_list(param_tys(ps@).take(i as int)),
        decreases n - i,
    {
        if i > 0 {
            out.push(44);
        }
        let mut piece = canon_ty_x(&ps[i].ty);
        out.append(&mut piece);
        proof {
            lemma_canon_list_take(param_tys(ps@), i as int);
            assert(param_tys(ps@)[i as int] == ps@[i as int].ty);
            assert(out@ =~= name@ + seq![40u8] + canon_list(param_tys(ps@).take(i as int + 1)));
        }
        i = i + 1;
    }
    out.push(41);
    proof {
        assert(param_tys(ps@).take(n as int) =~= param_tys(ps@));
        assert(out@ =~= signature_bytes(name@, param_tys(ps@)));
    }
    out
}

/// The canonical signature of a named event field list.
fn signature_of_fields(name: &Vec<u8>, fs: &Vec<EventField>) -> (r: Vec<u8>)
    ensures
        r@ == signature_bytes(name@, field_tys(fs@)),
{
    let mut out = bytes_dup(name);
    out.push(40);
    let n = fs.len();
    let mut i: usize = 0;
    proof {
        assert(out@ =~= name@ + seq![40u8] + canon_list(field_tys(fs@).take(0)));
    }
    while i < n
        invariant
            n == fs@.len(),
            0 <= i <= n,
            out@ == name@ + seq![40u8] + canon_list(field_tys(fs@).take(i as int)),
        decreases n - i,
    {
        if i > 0 {
            out.push(44);
        }
        let mut piece = canon_ty_x(&fs[i].ty);
        out.append(&mut piece);
        proof {
            lemma_canon_list_take(field_tys(fs@), i as int);
            assert(field_tys(fs@)[i as int] == fs@[i as int].ty);
            assert(out@ =~= name@ + seq![40u8] + canon_list(field_tys(fs@).take(i as int + 1)));
        }
        i = i + 1;
    }
    out.push(41);
    proof {
        assert(field_tys(fs@).take(n as int) =~= field_tys(fs@));
        assert(out@ =~= signature_bytes(name@, field_tys(fs@)));
    }
    out
}

/// The call-schema registry: schemas in registration order.
#[derive(Debug)]
pub struct SchemaRegistry {
    pub schemas: Vec<Schema>,
}

/// Every schema in the registry is well formed.
pub open spec fn registry_wf(schemas: Seq<Schema>) -> bool {
    forall|i: int| 0 <= i < schemas.len() ==> (#[trigger] schemas[i]).wf()
}

impl SchemaRegistry {
    /// An empty registry.
    pub fn new() -> (r: Self)
        ensures
            r.schemas@.len() == 0,
            registry_wf(r.schemas@),
    {
        SchemaRegistry { schemas: Vec::new() }
    }

    /// Register a schema: derive its selector from the canonical
    /// signature and append it, keeping earlier entries and their order.
    /// Rejects malformed descriptors and leaves the registry unchanged.
    pub fn register(
        &mut self,
        name: Vec<u8>,
        inputs: Vec<Param>,
        outputs: Vec<AbiType>,
        mutability: Mutability,
    ) -> (r: Result<Vec<u8>, SchemaError>)
        ensures
            match r {
                Ok(sel) => {
                    &&& tys_valid(param_tys(inputs@)) && tys_valid(outputs@)
                    &&& sel@ == selector_of(name@, param_tys(inputs@))
                    &&& sel@.len() == 4
                    &&& final(self).schemas@.len() == old(self).schemas@.len() + 1
                    &&& forall|i: int|
                        0 <= i < old(self).schemas@.len() ==> final(self).schemas@[i] == old(
                            self,
                        ).schemas@[i]
                    &&& {
                        let s = final(self).schemas@.last();
                        &&& s.name@ == name@
                        &&& s.inputs@ == inputs@
                        &&& s.outputs@ == outputs@
                        &&& s.mutability == mutability
                        &&& s.selector@ == selector_of(name@, param_tys(inputs@))
                    }
                    &&& registry_wf(old(self).schemas@) ==> registry_wf(final(self).schemas@)
                },
                Err(_) => {
                    &&& !(tys_valid(param_tys(inputs@)) && tys_valid(outputs@))
                    &&& *final(self) == *old(self)
                },
            },
    {
        if !params_all_valid(&inputs) {
            return Err(SchemaError::IllegalBitWidth);
        }
        if !tys_all_valid(&outputs) {
            return Err(SchemaError::IllegalBitWidth);
        }
        let sig = signature_of_params(&name, &inputs);
        let mut selector = keccak256(&sig);
        selector.truncate(4);
        proof {
            assert(selector@ =~= selector_of(name@, param_tys(inputs@)));
        }
        let sel_copy = bytes_dup(&selector);
        let schema = Schema { name, inputs, outputs, mutability, selector };
        self.schemas.push(schema);
        proof {
            let cur = self.schemas@;
            assert(cur.last().wf());
            if registry_wf(old(self).schemas@) {
                assert forall|i: int| 0 <= i < cur.len() implies (#[trigger] cur[i]).wf() by {
                    if i < cur.len() - 1 {
                        assert(old(self).schemas@[i].wf());
                    }
                }
                assert(registry_wf(cur));
            }
        }
        Ok(sel_copy)
    }

    /// Look up the first registered schema carrying `selector`.
    pub fn lookup(&self, selector: &Vec<u8>) -> (r: Option<usize>)
        ensures
            match r {
                Some(i) => i < self.schemas@.len() && self.schemas@[i as int].selector@ == selector@
                    && forall|j: int|
                    0 <= j < i ==> (#[trigger] self.schemas@[j]).selector@ != selector@,
                None => forall|j: int|
                    0 <= j < self.schemas@.len() ==> (#[trigger] self.schemas@[j]).selector@
                        != selector@,
            },
    {
        let n = self.schemas.len();
        let mut i: usize = 0;
        while i < n
            invariant
                n == self.schemas@.len(),
                0 <= i <= n,
                forall|j: int| 0 <= j < i ==> (#[trigger] self.schemas@[j]).selector@ != selector@,
            decreases n - i,
        {
            if bytes_eq(&self.schemas[i].selector, selector) {
                return Some(i);
            }
            i = i + 1;
        }
        None
    }

    /// Every registered schema carrying `selector`, in registration
    /// order: selector collisions stay reachable, never overwritten.
    pub fn lookup_all(&self, selector: &Vec<u8>) -> (r: Vec<usize>)
        ensures
            forall|k: int|
                0 <= k < r@.len() ==> (#[trigger] r@[k]) < self.schemas@.len()
                    && self.schemas@[r@[k] as int].selector@ == selector@,
            forall|j: int|
                0 <= j < self.schemas@.len() && (#[trigger] self.schemas@[j]).selector@
                    == selector@ ==> r@.contains(j as usize),
            forall|k1: int, k2: int| 0 <= k1 < k2 < r@.len() ==> r@[k1] < r@[k2],
    {
        let n = self.schemas.len();
        let mut out: Vec<usize> = Vec::new();
        let mut i: usize = 0;
        while i < n
            invariant
                n == self.schemas@.len(),
                0 <= i <= n,
                forall|k: int|
                    0 <= k < out@.len() ==> (#[trigger] out@[k]) < i
                        && self.schemas@[out@[k] as int].selector@ == selector@,
                forall|j: int|
                    0 <= j < i && (#[trigger] self.schemas@[j]).selector@ == selector@
                        ==> out@.contains(j as usize),
                forall|k1: int, k2: int| 0 <= k1 < k2 < out@.len() ==> out@[k1] < out@[k2],
            decreases n - i,
        {
            if bytes_eq(&self.schemas[i].selector, selector) {
                let ghost old_out = out@;
                out.push(i);
                proof {
                    assert forall|j: int|
                        0 <= j < i + 1 && (#[trigger] self.schemas@[j]).selector@
                            == selector@ implies out@.contains(j as usize) by {
                        if j < i {
                            let k = choose|k: int|
                                0 <= k < old_out.len() && old_out[k] == j as usize;
                            assert(out@[k] == j as usize);
                        } else {
                            assert(out@[out@.len() - 1] == j as usize);
                        }
                    }
                }
            } else {
                proof {
                    assert forall|j: int|
                        0 <= j < i + 1 && (#[trigger] self.schemas@[j]).selector@
                            == selector@ implies out@.contains(j as usize) by {
                        assert(j < i);
                    }
                }
            }
            i = i + 1;
        }
        out
    }
}

/// The event-schema registry: event schemas in registration order.
#[derive(Debug)]
pub struct EventRegistry {
    pub events: Vec<EventSchema>,
}

/// Every event schema in the registry is well formed.
pub open spec fn event_registry_wf(events: Seq<EventSchema>) -> bool {
    forall|i: int| 0 <= i < events.len() ==> (#[trigger] events[i]).wf()
}

impl EventRegistry {
    /// An empty registry.
    pub fn new() -> (r: Self)
        ensures
            r.events@.len() == 0,
            event_registry_wf(r.events@),
    {
        EventRegistry { events: Vec::new() }
    }

    /// Register an event schema: derive its topic from the canonical
    /// signature and append it, keeping earlier entries and their order.
    pub fn register(&mut self, name: Vec<u8>, fields: Vec<EventField>) -> (r: Result<
        Vec<u8>,
        SchemaError,
    >)
        ensures
            match r {
                Ok(topic) => {
                    &&& tys_valid(field_tys(fields@))
                    &&& topic@ == topic_of(name@, field_tys(fields@))
                    &&& topic@.len() == 32
                    &&& final(self).events@.len() == old(self).events@.len() + 1
                    &&& forall|i: int|
                        0 <= i < old(self).events@.len() ==> final(self).events@[i] == old(
                            self,
                        ).events@[i]
                    &&& {
                        let s = final(self).events@.last();
                        &&& s.name@ == name@
                        &&& s.fields@ == fields@
                        &&& s.topic0@ == topic_of(name@, field_tys(fields@))
                    }
                    &&& event_registry_wf(old(self).events@) ==> event_registry_wf(
                        final(self).events@,
                    )
                },
                Err(_) => {
                    &&& !tys_valid(field_tys(fields@))
                    &&& *final(self) == *old(self)
                },
            },
    {
        if !fields_all_valid(&fields) {
            return Err(SchemaError::IllegalBitWidth);
        }
        let sig = signature_of_fields(&name, &fields);
        let topic = keccak256(&sig);
        let topic_copy = bytes_dup(&topic);
        let schema = EventSchema { name, fields, topic0: topic };
        self.events.push(schema);
        proof {
            let cur = self.events@;
            assert(cur.last().wf());
            if event_registry_wf(old(self).events@) {
                assert forall|i: int| 0 <= i < cur.len() implies (#[trigger] cur[i]).wf() by {
                    if i < cur.len() - 1 {
                        assert(old(self).events@[i].wf());
                    }
                }
                assert(event_registry_wf(cur));
            }
        }
        Ok(topic_copy)
    }
}

} // verus!
