use vstd::prelude::*;
use crate::schema::{
    default_value, field_names, lemma_strings_view_push, names_unique, required_names, strings_view, EntitySchema,
    Entity, FieldSpec,
};
use crate::builder::{eligible, finalized, Builder, UnknownField};
use crate::validator::{check_required, lemma_missing_is_difference, missing_names, missing_of, MissingFields};

verus! {

/// The names of a shorthand field list, in the order written.
pub open spec fn pair_names(s: Seq<(String, String)>) -> Seq<Seq<char>> {
    s.map_values(|p: (String, String)| p.0@)
}

/// The value written for `name` in a shorthand field list; the last one wins.
pub open spec fn supplied_value(s: Seq<(String, String)>, name: Seq<char>) -> Option<Seq<char>>
    decreases s.len(),
{
    if s.len() == 0 {
        None
    } else if s.last().0@ == name {
        Some(s.last().1@)
    } else {
        supplied_value(s.drop_last(), name)
    }
}

/// The record a successful shorthand construction yields: the supplied value
/// of each field where there is one, its default otherwise.
pub open spec fn shorthand_values(fields: Seq<FieldSpec>, s: Seq<(String, String)>) -> Seq<
    Seq<char>,
> {
    Seq::new(
        fields.len(),
        |i: int|
            match supplied_value(s, fields[i].name@) {
                Some(v) => v,
                None => default_value(fields[i]),
            },
    )
}

/// The supplied names that the schema does not declare.
pub open spec fn unknown_names(fields: Seq<FieldSpec>, s: Seq<(String, String)>) -> Seq<Seq<char>> {
    missing_names(pair_names(s), field_names(fields))
}

/// The required names that the shorthand list leaves out.
pub open spec fn omitted_names(fields: Seq<FieldSpec>, s: Seq<(String, String)>) -> Seq<Seq<char>> {
    missing_names(required_names(fields), pair_names(s))
}

pub enum ConstructError {
    /// Names that are not fields of the record.
    Unknown(Vec<String>),
    /// Required fields that were not supplied.
    Missing(MissingFields),
}

/// The value written last for `name` in `s`.
pub fn lookup_value(s: &Vec<(String, String)>, name: &String) -> (r: Option<String>)
    ensures
        match r {
            Some(v) => supplied_value(s@, name@) == Some(v@),
            None => supplied_value(s@, name@) is None,
        },
{
    let mut r: Option<String> = None;
    let mut i: usize = 0;
    while i < s.len()
        invariant
            i <= s@.len(),
            match r {
                Some(v) => supplied_value(s@.take(i as int), name@) == Some(v@),
                None => supplied_value(s@.take(i as int), name@) is None,
            },
        decreases s@.len() - i,
    {
        assert(s@.take(i + 1).drop_last() =~= s@.take(i as int));
        if s[i].0 == *name {
            r = Some(s[i].1.clone());
        }
        i = i + 1;
    }
    assert(s@.take(i as int) =~= s@);
    r
}

/// The field names of a shorthand list, in the order written.
pub fn names_of(s: &Vec<(String, String)>) -> (r: Vec<String>)
    ensures
        strings_view(r@) == pair_names(s@),
{
    let mut r: Vec<String> = Vec::new();
    let mut i: usize = 0;
    while i < s.len()
        invariant
            i <= s@.len(),
            strings_view(r@) == pair_names(s@.take(i as int)),
        decreases s@.len() - i,
    {
        let ghost before = r@;
        let name = s[i].0.clone();
        r.push(name);
        proof {
            lemma_strings_view_push(before, name);
        }
        assert(pair_names(s@.take(i + 1)) =~= pair_names(s@.take(i as int)).push(s@[i as int].0@));
        assert(strings_view(r@) =~= pair_names(s@.take(i + 1)));
        i = i + 1;
    }
    assert(s@.take(i as int) =~= s@);
    r
}

impl EntitySchema {
    /// The field names, in declaration order.
    pub fn names(&self) -> (r: Vec<String>)
        ensures
            strings_view(r@) == field_names(self.fields@),
    {
        let mut r: Vec<String> = Vec::new();
        let mut i: usize = 0;
        while i < self.fields.len()
            invariant
                i <= self.fields@.len(),
                strings_view(r@) == field_names(self.fields@.take(i as int)),
            decreases self.fields@.len() - i,
        {
            let ghost before = r@;
            let name = self.fields[i].name.clone();
            r.push(name);
            proof {
                lemma_strings_view_push(before, name);
            }
            assert(field_names(self.fields@.take(i + 1)) =~= field_names(self.fields@.take(i as int)).push(
                self.fields@[i as int].name@,
            ));
            assert(strings_view(r@) =~= field_names(self.fields@.take(i + 1)));
            i = i + 1;
        }
        assert(self.fields@.take(i as int) =~= self.fields@);
        r
    }
}

/// A name has a supplied value exactly when the list names it.
pub proof fn lemma_supplied_value_some(s: Seq<(String, String)>, name: Seq<char>)
    ensures
        supplied_value(s, name) is Some <==> pair_names(s).contains(name),
    decreases s.len(),
{
    if s.len() > 0 {
        lemma_supplied_value_some(s.drop_last(), name);
        let p0 = pair_names(s.drop_last());
        assert(pair_names(s) == p0.push(s.last().0@));
        if p0.contains(name) {
            let k = choose|k: int| 0 <= k < p0.len() && p0[k] == name;
            assert(pair_names(s)[k] == name);
        }
        if pair_names(s).contains(name) && s.last().0@ != name {
            let k = choose|k: int| 0 <= k < pair_names(s).len() && pair_names(s)[k] == name;
            assert(p0[k] == name);
        }
        if s.last().0@ == name {
            assert(pair_names(s)[s.len() - 1] == name);
        }
    }
}

/// Every required field's name is among the required names.
pub proof fn lemma_required_listed(fields: Seq<FieldSpec>, i: int)
    requires
        0 <= i < fields.len(),
        fields[i].requirement is Required,
    ensures
        required_names(fields).contains(fields[i].name@),
    decreases fields.len(),
{
    let f0 = fields.drop_last();
    if i < fields.len() - 1 {
        assert(f0[i] == fields[i]);
        lemma_required_listed(f0, i);
        let k = choose|k: int| 0 <= k < required_names(f0).len() && required_names(f0)[k] == fields[i].name@;
        if fields.last().requirement is Required {
            assert(required_names(fields)[k] == fields[i].name@);
        }
    } else {
        let r = required_names(fields);
        assert(r[r.len() - 1] == fields[i].name@);
    }
}

/// When every field is required, the required names are all the names.
pub proof fn lemma_all_required_names(fields: Seq<FieldSpec>)
    requires
        forall|i: int| 0 <= i < fields.len() ==> #[trigger] fields[i].requirement is Required,
    ensures
        required_names(fields) == field_names(fields),
    decreases fields.len(),
{
    if fields.len() > 0 {
        let f0 = fields.drop_last();
        assert forall|i: int| 0 <= i < f0.len() implies #[trigger] f0[i].requirement is Required by {
            assert(f0[i] == fields[i]);
        }
        lemma_all_required_names(f0);
        assert(field_names(fields) =~= field_names(f0).push(fields.last().name@));
    } else {
        assert(field_names(fields) =~= Seq::empty());
    }
}

/// With distinct required names, of which `supplied` lacks only `x`, the
/// missing list is `x` alone if `x` is required, and empty otherwise.
pub proof fn lemma_missing_single(required: Seq<Seq<char>>, supplied: Seq<Seq<char>>, x: Seq<char>)
    requires
        required.no_duplicates(),
        forall|k: int|
            0 <= k < required.len() ==> (supplied.contains(#[trigger] required[k]) <==> required[k]
                != x),
    ensures
        required.contains(x) ==> missing_names(required, supplied) == seq![x],
        !required.contains(x) ==> missing_names(required, supplied) == Seq::<Seq<char>>::empty(),
    decreases required.len(),
{
    if required.len() > 0 {
        let r0 = required.drop_last();
        let n = required.len();
        assert forall|k: int|
            0 <= k < r0.len() implies (supplied.contains(#[trigger] r0[k]) <==> r0[k] != x) by {
            assert(r0[k] == required[k]);
        }
        lemma_missing_single(r0, supplied, x);
        assert(supplied.contains(required[n - 1]) <==> required[n - 1] != x);
        if required.last() == x {
            assert(!r0.contains(x)) by {
                if r0.contains(x) {
                    let k = choose|k: int| 0 <= k < r0.len() && r0[k] == x;
                    assert(required[k] == required[n - 1]);
                }
            }
            assert(missing_names(required, supplied) =~= seq![x]);
        } else {
            if required.contains(x) {
                let k = choose|k: int| 0 <= k < required.len() && required[k] == x;
                assert(r0[k] == x);
            }
            if r0.contains(x) {
                let k = choose|k: int| 0 <= k < r0.len() && r0[k] == x;
                assert(required[k] == x);
            }
        }
    }
}

/// For a record whose fields are all required, a shorthand list that names
/// every field but one is refused, and the diagnostic names exactly the
/// field left out.
pub proof fn lemma_omitting_one_required_field(
    fields: Seq<FieldSpec>,
    supplied: Seq<(String, String)>,
    j: int,
)
    requires
        names_unique(fields),
        forall|i: int| 0 <= i < fields.len() ==> #[trigger] fields[i].requirement is Required,
        0 <= j < fields.len(),
        forall|k: int|
            0 <= k < supplied.len() ==> field_names(fields).contains(#[trigger] pair_names(supplied)[k])
                && pair_names(supplied)[k] != fields[j].name@,
        forall|i: int|
            0 <= i < fields.len() && i != j ==> pair_names(supplied).contains(#[trigger] fields[i].name@),
    ensures
        unknown_names(fields, supplied).len() == 0,
        omitted_names(fields, supplied) == seq![fields[j].name@],
{
    broadcast use vstd::set::group_set_axioms;

    let names = field_names(fields);
    let given = pair_names(supplied);
    let x = fields[j].name@;
    lemma_missing_is_difference(given, names);
    assert forall|a: Seq<char>| given.to_set().contains(a) implies names.to_set().contains(a) by {
        let k = choose|k: int| 0 <= k < given.len() && given[k] == a;
    }
    lemma_all_required_names(fields);
    assert forall|k: int| 0 <= k < names.len() implies (given.contains(#[trigger] names[k]) <==> names[k]
        != x) by {
        if k != j {
            assert(fields[k].name@ == names[k]);
        } else {
            if given.contains(x) {
                let m = choose|m: int| 0 <= m < given.len() && given[m] == x;
            }
        }
    }
    lemma_missing_single(names, given, x);
    assert(names[j] == x);
}

/// Builds a record from a shorthand field list: names that are not fields
/// are rejected, then every required field must be supplied, and every field
/// takes its supplied value or, if it is optional and omitted, its default.
pub fn construct(schema: &EntitySchema, supplied: &Vec<(String, String)>) -> (r: Result<
    Entity,
    ConstructError,
>)
    requires
        schema.wf(),
    ensures
        (r matches Err(ConstructError::Unknown(_))) <==> unknown_names(schema.fields@, supplied@).len() > 0,
        r matches Err(ConstructError::Unknown(u)) ==> strings_view(u@) == unknown_names(
            schema.fields@,
            supplied@,
        ),
        (r matches Err(ConstructError::Missing(_))) <==> unknown_names(schema.fields@, supplied@).len() == 0
            && omitted_names(schema.fields@, supplied@).len() > 0,
        r matches Err(ConstructError::Missing(m)) ==> strings_view(m.names@) == omitted_names(
            schema.fields@,
            supplied@,
        ),
        r matches Ok(e) ==> e@ == shorthand_values(schema.fields@, supplied@) && forall|i: int|
            0 <= i < schema.fields@.len() && #[trigger] schema.fields@[i].requirement is Required
                ==> supplied_value(supplied@, schema.fields@[i].name@) is Some,
{
    let names = names_of(supplied);
    let declared = schema.names();
    let unknown = missing_of(&names, &declared);
    if unknown.len() > 0 {
        return Err(ConstructError::Unknown(unknown));
    }
    let required = schema.required_names();
    match check_required(&required, &names) {
        Err(m) => {
            return Err(ConstructError::Missing(m));
        },
        Ok(()) => {},
    }
    proof {
        lemma_missing_is_difference(required_names(schema.fields@), pair_names(supplied@));
        assert forall|i: int|
            0 <= i < schema.fields@.len() && #[trigger] schema.fields@[i].requirement is Required
                implies supplied_value(supplied@, schema.fields@[i].name@) is Some by {
            lemma_required_listed(schema.fields@, i);
            assert(required_names(schema.fields@).to_set().contains(schema.fields@[i].name@));
            lemma_supplied_value_some(supplied@, schema.fields@[i].name@);
        }
    }
    let mut values: Vec<String> = Vec::new();
    let mut i: usize = 0;
    while i < schema.fields.len()
        invariant
            i <= schema.fields@.len(),
            strings_view(values@) == shorthand_values(schema.fields@, supplied@).take(i as int),
        decreases schema.fields@.len() - i,
    {
        let v = match lookup_value(supplied, &schema.fields[i].name) {
            Some(v) => v,
            None => schema.default_of(i),
        };
        let ghost before = values@;
        assert(v@ == shorthand_values(schema.fields@, supplied@)[i as int]);
        proof {
            lemma_strings_view_push(before, v);
        }
        values.push(v);
        assert(strings_view(values@) =~= shorthand_values(schema.fields@, supplied@).take(i + 1));
        i = i + 1;
    }
    let e = Entity { values };
    assert(e@ =~= shorthand_values(schema.fields@, supplied@));
    Ok(e)
}

/// The slots a shorthand list fills when each pair becomes a setter call.
pub open spec fn chained_slots(fields: Seq<FieldSpec>, s: Seq<(String, String)>) -> Seq<
    Option<Seq<char>>,
> {
    Seq::new(fields.len(), |i: int| supplied_value(s, fields[i].name@))
}

impl Builder {
    /// Turns a shorthand list into a setter chain: a fresh builder on which
    /// each pair's setter is called in the order written.
    pub fn from_pairs(schema: &EntitySchema, supplied: &Vec<(String, String)>) -> (r: Result<
        Builder,
        UnknownField,
    >)
        requires
            schema.wf(),
        ensures
            r is Ok <==> unknown_names(schema.fields@, supplied@).len() == 0,
            r matches Ok(b) ==> b.fits(schema) && b@ == chained_slots(schema.fields@, supplied@),
            r matches Err(e) ==> pair_names(supplied@).contains(e.name@) && !field_names(
                schema.fields@,
            ).contains(e.name@),
    {
        broadcast use vstd::set::group_set_axioms;

        let mut b = Builder::new(schema);
        let mut k: usize = 0;
        while k < supplied.len()
            invariant
                schema.wf(),
                k <= supplied@.len(),
                b.fits(schema),
                b@ == chained_slots(schema.fields@, supplied@.take(k as int)),
                forall|m: int| 0 <= m < k ==> field_names(schema.fields@).contains(#[trigger] pair_names(supplied@)[m]),
            decreases supplied@.len() - k,
        {
            assert(supplied@.take(k + 1).drop_last() =~= supplied@.take(k as int));
            let ghost old_b = b@;
            match b.set_field(schema, &supplied[k].0, supplied[k].1.clone()) {
                Ok(nb) => {
                    b = nb;
                    proof {
                        let t = supplied@.take(k + 1);
                        assert(pair_names(supplied@)[k as int] == supplied@[k as int].0@);
                        assert forall|i: int| 0 <= i < schema.fields@.len() implies b@[i]
                            == chained_slots(schema.fields@, t)[i] by {
                            if schema.fields@[i].name@ == supplied@[k as int].0@ {
                                assert(b@ == old_b.update(i, Some(supplied@[k as int].1@)));
                            } else {
                                let j = choose|j: int| 0 <= j < field_names(schema.fields@).len() && field_names(schema.fields@)[j] == supplied@[k as int].0@;
                                assert(schema.fields@[j].name@ == supplied@[k as int].0@);
                                assert(b@ == old_b.update(j, Some(supplied@[k as int].1@)));
                            }
                        }
                        assert(b@ =~= chained_slots(schema.fields@, t));
                    }
                },
                Err(e) => {
                    proof {
                        assert(pair_names(supplied@)[k as int] == e.name@);
                        lemma_missing_is_difference(pair_names(supplied@), field_names(schema.fields@));
                        assert(pair_names(supplied@).to_set().contains(e.name@));
                    }
                    return Err(e);
                },
            }
            k = k + 1;
        }
        proof {
            assert(supplied@.take(k as int) =~= supplied@);
            lemma_missing_is_difference(pair_names(supplied@), field_names(schema.fields@));
            assert forall|a: Seq<char>| pair_names(supplied@).to_set().contains(a) implies field_names(
                schema.fields@,
            ).to_set().contains(a) by {
                let m = choose|m: int| 0 <= m < pair_names(supplied@).len() && pair_names(supplied@)[m] == a;
            }
        }
        Ok(b)
    }
}

/// Building through the setter chain that a shorthand list stands for gives
/// the same record as the shorthand constructor, and the chain is buildable
/// exactly when the constructor finds no required field missing.
pub proof fn lemma_chain_agrees_with_shorthand(fields: Seq<FieldSpec>, s: Seq<(String, String)>)
    ensures
        finalized(fields, chained_slots(fields, s)) == shorthand_values(fields, s),
        eligible(fields, chained_slots(fields, s)) <==> omitted_names(fields, s).len() == 0,
{
    broadcast use vstd::set::group_set_axioms;

    assert(finalized(fields, chained_slots(fields, s)) =~= shorthand_values(fields, s));
    lemma_missing_is_difference(required_names(fields), pair_names(s));
    if eligible(fields, chained_slots(fields, s)) {
        assert forall|a: Seq<char>| required_names(fields).to_set().contains(a) implies pair_names(s).to_set().contains(a) by {
            lemma_required_member(fields, a);
            let i = choose|i: int| 0 <= i < fields.len() && #[trigger] fields[i].requirement is Required && fields[i].name@ == a;
            lemma_supplied_value_some(s, a);
        }
    } else {
        let i = choose|i: int| 0 <= i < fields.len() && #[trigger] fields[i].requirement is Required && !(chained_slots(fields, s)[i] is Some);
        lemma_required_listed(fields, i);
        lemma_supplied_value_some(s, fields[i].name@);
        assert(!pair_names(s).to_set().contains(fields[i].name@));
        assert(required_names(fields).to_set().contains(fields[i].name@));
    }
}

/// A required name belongs to some required field.
pub proof fn lemma_required_member(fields: Seq<FieldSpec>, a: Seq<char>)
    requires
        required_names(fields).contains(a),
    ensures
        exists|i: int| 0 <= i < fields.len() && #[trigger] fields[i].requirement is Required && fields[i].name@ == a,
    decreases fields.len(),
{
    let f0 = fields.drop_last();
    let r0 = required_names(f0);
    if r0.contains(a) {
        lemma_required_member(f0, a);
        let i = choose|i: int| 0 <= i < f0.len() && #[trigger] f0[i].requirement is Required && f0[i].name@ == a;
        assert(fields[i] == f0[i]);
    } else {
        let k = choose|k: int| 0 <= k < required_names(fields).len() && required_names(fields)[k] == a;
        if fields.last().requirement is Required {
            if k < r0.len() {
                assert(r0[k] == a);
            }
            assert(fields[fields.len() - 1].requirement is Required);
        } else {
            assert(r0[k] == a);
        }
    }
}

} // verus!
