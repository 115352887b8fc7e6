use vstd::prelude::*;
use crate::schema::{default_value, field_names, lemma_strings_view_push, EntitySchema, Entity, FieldSpec, Requirement, strings_view};

verus! {

pub open spec fn slot_view(o: Option<String>) -> Option<Seq<char>> {
    match o {
        Some(s) => Some(s@),
        None => None,
    }
}

/// Every required field has a value.
pub open spec fn eligible(fields: Seq<FieldSpec>, slots: Seq<Option<Seq<char>>>) -> bool {
    forall|i: int|
        0 <= i < fields.len() && #[trigger] fields[i].requirement is Required ==> slots[i] is Some
}

/// The record a finalizer assembles: each field's value where one was set,
/// its default otherwise.
pub open spec fn finalized(fields: Seq<FieldSpec>, slots: Seq<Option<Seq<char>>>) -> Seq<
    Seq<char>,
> {
    Seq::new(
        fields.len(),
        |i: int|
            match slots[i] {
                Some(v) => v,
                None => default_value(fields[i]),
            },
    )
}

pub open spec fn empty_slots(n: nat) -> Seq<Option<Seq<char>>> {
    Seq::new(n, |i: int| None)
}

/// The slots after a chain of setter calls, each given as (field index, value).
pub open spec fn run_chain(init: Seq<Option<Seq<char>>>, chain: Seq<(int, Seq<char>)>) -> Seq<
    Option<Seq<char>>,
>
    decreases chain.len(),
{
    if chain.len() == 0 {
        init
    } else {
        run_chain(init, chain.drop_last()).update(chain.last().0, Some(chain.last().1))
    }
}

pub open spec fn indices_in_range(chain: Seq<(int, Seq<char>)>, n: nat) -> bool {
    forall|k: int| 0 <= k < chain.len() ==> 0 <= #[trigger] chain[k].0 < n
}

pub open spec fn hits(chain: Seq<(int, Seq<char>)>, i: int) -> bool {
    exists|k: int| 0 <= k < chain.len() && #[trigger] chain[k].0 == i
}

/// No later call of the chain sets the field that call `k` sets.
pub open spec fn last_write(chain: Seq<(int, Seq<char>)>, k: int) -> bool {
    forall|k2: int| k < k2 < chain.len() ==> #[trigger] chain[k2].0 != chain[k].0
}

/// A partly built record: one storage slot and one "set" flag per field.
pub struct Builder {
    pub state: Vec<bool>,
    pub slots: Vec<Option<String>>,
}

/// A field name that the schema does not declare.
pub struct UnknownField {
    pub name: String,
}

impl View for Builder {
    type V = Seq<Option<Seq<char>>>;

    open spec fn view(&self) -> Seq<Option<Seq<char>>> {
        self.slots@.map_values(|o: Option<String>| slot_view(o))
    }
}

impl Builder {
    /// Flag `i` is set exactly when slot `i` holds a value.
    pub open spec fn wf(&self) -> bool {
        &&& self.state@.len() == self.slots@.len()
        &&& forall|i: int| 0 <= i < self.slots@.len() ==> #[trigger] self.state@[i] == self.slots@[i] is Some
    }

    pub open spec fn fits(&self, schema: &EntitySchema) -> bool {
        self.wf() && self.slots@.len() == schema.fields@.len()
    }

    /// A builder for `schema` with every slot empty.
    pub fn new(schema: &EntitySchema) -> (r: Builder)
        ensures
            r.fits(schema),
            r@ == empty_slots(schema.fields@.len()),
    {
        let mut state: Vec<bool> = Vec::new();
        let mut slots: Vec<Option<String>> = Vec::new();
        let mut i: usize = 0;
        while i < schema.fields.len()
            invariant
                i <= schema.fields@.len(),
                state@.len() == i,
                slots@.len() == i,
                forall|j: int| 0 <= j < i ==> !#[trigger] state@[j],
                forall|j: int| 0 <= j < i ==> #[trigger] slots@[j] is None,
            decreases schema.fields@.len() - i,
        {
            state.push(false);
            slots.push(None);
            i = i + 1;
        }
        let r = Builder { state, slots };
        assert forall|j: int| 0 <= j < r@.len() implies r@[j] == empty_slots(schema.fields@.len())[j] by {
            assert(r.slots@[j] is None);
        }
        assert(r@ =~= empty_slots(schema.fields@.len()));
        r
    }

    /// Whether field `i` has a value.
    pub fn is_set(&self, i: usize) -> (r: bool)
        requires
            self.wf(),
            i < self.slots@.len(),
        ensures
            r == self@[i as int] is Some,
    {
        self.state[i]
    }

    /// Sets field `i` to `value`; every other field keeps its slot and flag.
    pub fn set(self, i: usize, value: String) -> (r: Builder)
        requires
            self.wf(),
            i < self.slots@.len(),
        ensures
            r.wf(),
            r@ == self@.update(i as int, Some(value@)),
    {
        let mut b = self;
        b.state.set(i, true);
        b.slots.set(i, Some(value));
        assert(b@ =~= self@.update(i as int, Some(value@)));
        b
    }

    /// Sets the field called `name`; fails when the schema has no such field.
    pub fn set_field(self, schema: &EntitySchema, name: &String, value: String) -> (r: Result<
        Builder,
        UnknownField,
    >)
        requires
            schema.wf(),
            self.fits(schema),
        ensures
            r is Ok <==> field_names(schema.fields@).contains(name@),
            r matches Ok(b) ==> b.fits(schema) && forall|i: int|
                0 <= i < schema.fields@.len() && #[trigger] schema.fields@[i].name@ == name@
                    ==> b@ == self@.update(i, Some(value@)),
            r matches Err(e) ==> e.name@ == name@,
    {
        match schema.position(name) {
            Some(i) => {
                let ghost v = value@;
                let b = self.set(i, value);
                assert(b@.len() == self@.len());
                assert(b.slots@.len() == b@.len());
                assert forall|j: int|
                    0 <= j < schema.fields@.len() && #[trigger] schema.fields@[j].name@
                        == name@ implies b@ == self@.update(j, Some(v)) by {
                    assert(j == i);
                }
                assert(field_names(schema.fields@)[i as int] == name@);
                Ok(b)
            },
            None => Err(UnknownField { name: name.clone() }),
        }
    }

    /// Whether every required field has a value, so that `build` may be called.
    pub fn is_buildable(&self, schema: &EntitySchema) -> (r: bool)
        requires
            self.fits(schema),
        ensures
            r == eligible(schema.fields@, self@),
    {
        let mut i: usize = 0;
        while i < schema.fields.len()
            invariant
                self.fits(schema),
                i <= schema.fields@.len(),
                forall|j: int|
                    0 <= j < i && #[trigger] schema.fields@[j].requirement is Required
                        ==> self@[j] is Some,
            decreases schema.fields@.len() - i,
        {
            if matches!(schema.fields[i].requirement, Requirement::Required) && !self.state[i] {
                return false;
            }
            i = i + 1;
        }
        true
    }

    /// Assembles the record: each set field's value, and for each unset
    /// (necessarily optional) field its default.
    pub fn build(self, schema: &EntitySchema) -> (r: Entity)
        requires
            self.fits(schema),
            eligible(schema.fields@, self@),
        ensures
            r@ == finalized(schema.fields@, self@),
    {
        let mut values: Vec<String> = Vec::new();
        let mut i: usize = 0;
        while i < schema.fields.len()
            invariant
                self.fits(schema),
                i <= schema.fields@.len(),
                strings_view(values@) == finalized(schema.fields@, self@).take(i as int),
            decreases schema.fields@.len() - i,
        {
            assert(self@[i as int] == slot_view(self.slots@[i as int]));
            let v = match &self.slots[i] {
                Some(v) => v.clone(),
                None => schema.default_of(i),
            };
            assert(v@ == finalized(schema.fields@, self@)[i as int]);
            let ghost before = values@;
            proof {
                lemma_strings_view_push(before, v);
            }
            values.push(v);
            assert(strings_view(values@) =~= finalized(schema.fields@, self@).take(i + 1));
            i = i + 1;
        }
        let r = Entity { values };
        assert(r@ =~= finalized(schema.fields@, self@));
        r
    }
}

/// Shape of the slots after a chain of setters: a field that some call set
/// holds a value, the last one written to it; a field that no call set is as
/// it was.
pub proof fn lemma_run_chain(init: Seq<Option<Seq<char>>>, chain: Seq<(int, Seq<char>)>)
    requires
        indices_in_range(chain, init.len()),
    ensures
        run_chain(init, chain).len() == init.len(),
        forall|k: int|
            0 <= k < chain.len() && last_write(chain, k) ==> run_chain(init, chain)[#[trigger] chain[k].0]
                == Some(chain[k].1),
        forall|i: int| 0 <= i < init.len() && !hits(chain, i) ==> #[trigger] run_chain(init, chain)[i] == init[i],
        forall|i: int| 0 <= i < init.len() && hits(chain, i) ==> #[trigger] run_chain(init, chain)[i] is Some,
    decreases chain.len(),
{
    if chain.len() > 0 {
        let c0 = chain.drop_last();
        let p = chain.last();
        assert(indices_in_range(c0, init.len())) by {
            assert forall|k: int| 0 <= k < c0.len() implies 0 <= #[trigger] c0[k].0 < init.len() by {
                assert(c0[k] == chain[k]);
            }
        }
        lemma_run_chain(init, c0);
        assert(0 <= chain[chain.len() - 1].0 < init.len());
        assert forall|k: int|
            0 <= k < chain.len() && last_write(chain, k) implies run_chain(init, chain)[#[trigger] chain[k].0]
                == Some(chain[k].1) by {
            if k < chain.len() - 1 {
                assert(c0[k] == chain[k]);
                assert(chain[chain.len() - 1].0 != chain[k].0);
                assert(last_write(c0, k)) by {
                    assert forall|k2: int| k < k2 < c0.len() implies #[trigger] c0[k2].0 != c0[k].0 by {
                        assert(c0[k2] == chain[k2]);
                    }
                }
            }
        }
        assert forall|i: int| 0 <= i < init.len() && !hits(chain, i) implies #[trigger] run_chain(init, chain)[i] == init[i] by {
            assert(chain[chain.len() - 1].0 != i);
            if hits(c0, i) {
                let k = choose|k: int| 0 <= k < c0.len() && #[trigger] c0[k].0 == i;
                assert(chain[k] == c0[k]);
            }
        }
        assert forall|i: int| 0 <= i < init.len() && hits(chain, i) implies #[trigger] run_chain(init, chain)[i] is Some by {
            if i != p.0 {
                let k = choose|k: int| 0 <= k < chain.len() && #[trigger] chain[k].0 == i;
                assert(k != chain.len() - 1);
                assert(c0[k] == chain[k]);
                assert(hits(c0, i));
            }
        }
    }
}

/// A setter chain that sets every field exactly once, in any order, makes the
/// builder buildable, and the record it builds holds exactly the values set.
pub proof fn lemma_full_chain_builds_set_values(fields: Seq<FieldSpec>, chain: Seq<(int, Seq<char>)>)
    requires
        indices_in_range(chain, fields.len()),
        forall|k1: int, k2: int|
            0 <= k1 < chain.len() && 0 <= k2 < chain.len() && k1 != k2 ==> #[trigger] chain[k1].0
                != #[trigger] chain[k2].0,
        forall|i: int| 0 <= i < fields.len() ==> hits(chain, i),
    ensures
        eligible(fields, run_chain(empty_slots(fields.len()), chain)),
        finalized(fields, run_chain(empty_slots(fields.len()), chain)).len() == fields.len(),
        forall|k: int|
            0 <= k < chain.len() ==> finalized(fields, run_chain(empty_slots(fields.len()), chain))[
                #[trigger] chain[k].0] == chain[k].1,
{
    let init = empty_slots(fields.len());
    let s = run_chain(init, chain);
    lemma_run_chain(init, chain);
    assert forall|k: int| 0 <= k < chain.len() implies last_write(chain, k) by {
        assert forall|k2: int| k < k2 < chain.len() implies #[trigger] chain[k2].0 != chain[k].0 by {
            assert(chain[k2].0 != chain[k].0);
        }
    }
    assert forall|i: int| 0 <= i < fields.len() && #[trigger] fields[i].requirement is Required implies s[i] is Some by {
        let k = choose|k: int| 0 <= k < chain.len() && #[trigger] chain[k].0 == i;
        assert(last_write(chain, k));
    }
    assert forall|k: int| 0 <= k < chain.len() implies finalized(fields, s)[#[trigger] chain[k].0] == chain[k].1 by {
        assert(last_write(chain, k));
    }
}

/// Fields that no setter touched are filled with their defaults at build
/// time, and a required field left untouched makes the builder unbuildable.
pub proof fn lemma_unset_fields_take_defaults(fields: Seq<FieldSpec>, chain: Seq<(int, Seq<char>)>)
    requires
        indices_in_range(chain, fields.len()),
    ensures
        forall|i: int|
            0 <= i < fields.len() && !hits(chain, i) && #[trigger] fields[i].requirement is Required
                ==> !eligible(fields, run_chain(empty_slots(fields.len()), chain)),
        forall|i: int|
            0 <= i < fields.len() && !hits(chain, i) ==> #[trigger] finalized(fields, run_chain(empty_slots(fields.len()), chain))[i]
                == default_value(fields[i]),
{
    let init = empty_slots(fields.len());
    lemma_run_chain(init, chain);
    let s = run_chain(init, chain);
    assert forall|i: int| 0 <= i < fields.len() && !hits(chain, i) implies #[trigger] finalized(fields, s)[i]
        == default_value(fields[i]) by {
        assert(s[i] == init[i]);
    }
    assert forall|i: int|
        0 <= i < fields.len() && !hits(chain, i) && #[trigger] fields[i].requirement is Required
            implies !eligible(fields, s) by {
        assert(s[i] == init[i]);
    }
}

/// When every field is required, a builder becomes buildable exactly when
/// every field's setter has been called, in whatever order.
pub proof fn lemma_all_required_needs_every_setter(fields: Seq<FieldSpec>, chain: Seq<(int, Seq<char>)>)
    requires
        indices_in_range(chain, fields.len()),
        forall|i: int| 0 <= i < fields.len() ==> #[trigger] fields[i].requirement is Required,
    ensures
        eligible(fields, run_chain(empty_slots(fields.len()), chain)) <==> forall|i: int|
            0 <= i < fields.len() ==> hits(chain, i),
{
    let init = empty_slots(fields.len());
    lemma_run_chain(init, chain);
    lemma_unset_fields_take_defaults(fields, chain);
    let s = run_chain(init, chain);
    if forall|i: int| 0 <= i < fields.len() ==> hits(chain, i) {
        assert forall|i: int| 0 <= i < fields.len() && #[trigger] fields[i].requirement is Required implies s[i] is Some by {
            assert(hits(chain, i));
        }
    } else {
        let i = choose|i: int| 0 <= i < fields.len() && !hits(chain, i);
        assert(fields[i].requirement is Required);
    }
}

} // verus!
