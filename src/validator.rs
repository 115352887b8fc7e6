use vstd::prelude::*;
use crate::schema::strings_view;

verus! {

/// The names in `required` that `supplied` lacks, each once, in the order of
/// their first occurrence in `required`.
pub open spec fn missing_names(required: Seq<Seq<char>>, supplied: Seq<Seq<char>>) -> Seq<
    Seq<char>,
>
    decreases required.len(),
{
    if required.len() == 0 {
        Seq::empty()
    } else {
        let rest = missing_names(required.drop_last(), supplied);
        if supplied.contains(required.last()) || rest.contains(required.last()) {
            rest
        } else {
            rest.push(required.last())
        }
    }
}

/// `names` joined by `", "`.
pub open spec fn joined(names: Seq<Seq<char>>) -> Seq<char>
    decreases names.len(),
{
    if names.len() == 0 {
        Seq::empty()
    } else if names.len() == 1 {
        names[0]
    } else {
        joined(names.drop_last()) + ", "@ + names.last()
    }
}

pub const MISSING_PREFIX: &'static str = "Missing required fields: ";

/// Diagnostic listing every required field that a construction left out.
pub struct MissingFields {
    pub names: Vec<String>,
}

impl MissingFields {
    /// The diagnostic text: the prefix followed by the names, comma-joined.
    pub fn message(&self) -> (r: String)
        ensures
            r@ == MISSING_PREFIX@ + joined(strings_view(self.names@)),
    {
        let mut r = String::from_str(MISSING_PREFIX);
        let mut i: usize = 0;
        while i < self.names.len()
            invariant
                i <= self.names@.len(),
                r@ == MISSING_PREFIX@ + joined(strings_view(self.names@.take(i as int))),
            decreases self.names@.len() - i,
        {
            assert(strings_view(self.names@.take(i + 1)).drop_last() =~= strings_view(
                self.names@.take(i as int),
            ));
            if i > 0 {
                r.append(", ");
            }
            r.append(self.names[i].as_str());
            assert(r@ =~= MISSING_PREFIX@ + joined(strings_view(self.names@.take(i + 1))));
            i = i + 1;
        }
        assert(self.names@.take(i as int) =~= self.names@);
        r
    }
}

/// Whether `name` occurs in `names`.
pub fn contains_name(names: &Vec<String>, name: &String) -> (r: bool)
    ensures
        r == strings_view(names@).contains(name@),
{
    let mut i: usize = 0;
    while i < names.len()
        invariant
            i <= names@.len(),
            forall|j: int| 0 <= j < i ==> names@[j]@ != name@,
        decreases names@.len() - i,
    {
        if names[i] == *name {
            assert(strings_view(names@)[i as int] == name@);
            return true;
        }
        i = i + 1;
    }
    assert forall|j: int| 0 <= j < strings_view(names@).len() implies strings_view(names@)[j]
        != name@ by {}
    false
}

/// The names of `required` missing from `supplied`, each once, in the order of
/// their first occurrence in `required`.
pub fn missing_of(required: &Vec<String>, supplied: &Vec<String>) -> (r: Vec<String>)
    ensures
        strings_view(r@) == missing_names(strings_view(required@), strings_view(supplied@)),
        strings_view(r@).no_duplicates(),
{
    proof {
        lemma_missing_no_duplicates(strings_view(required@), strings_view(supplied@));
    }
    let mut r: Vec<String> = Vec::new();
    let mut i: usize = 0;
    while i < required.len()
        invariant
            i <= required@.len(),
            strings_view(r@) == missing_names(
                strings_view(required@.take(i as int)),
                strings_view(supplied@),
            ),
        decreases required@.len() - i,
    {
        assert(strings_view(required@.take(i + 1)).drop_last() =~= strings_view(
            required@.take(i as int),
        ));
        if !contains_name(supplied, &required[i]) && !contains_name(&r, &required[i]) {
            r.push(required[i].clone());
        }
        assert(strings_view(r@) =~= missing_names(
            strings_view(required@.take(i + 1)),
            strings_view(supplied@),
        ));
        i = i + 1;
    }
    assert(required@.take(i as int) =~= required@);
    r
}

/// Checks that every name of `required` occurs in `supplied`. On failure the
/// diagnostic lists every missing name once, in the order of its first
/// occurrence in `required`.
pub fn check_required(required: &Vec<String>, supplied: &Vec<String>) -> (r: Result<
    (),
    MissingFields,
>)
    ensures
        r is Ok <==> missing_names(strings_view(required@), strings_view(supplied@)).len() == 0,
        r matches Err(m) ==> strings_view(m.names@) == missing_names(
            strings_view(required@),
            strings_view(supplied@),
        ) && strings_view(m.names@).no_duplicates(),
{
    let missing = missing_of(required, supplied);
    if missing.len() == 0 {
        Ok(())
    } else {
        Err(MissingFields { names: missing })
    }
}

/// The validator's outcome depends on the two name sets alone: the missing names,
/// taken as a set, are exactly `required − supplied`; none are missing exactly
/// when `supplied ⊇ required`; and reordering either input changes no member
/// of the result.
pub proof fn lemma_missing_is_difference(required: Seq<Seq<char>>, supplied: Seq<Seq<char>>)
    ensures
        missing_names(required, supplied).to_set() == required.to_set().difference(
            supplied.to_set(),
        ),
        missing_names(required, supplied).len() == 0 <==> required.to_set().subset_of(
            supplied.to_set(),
        ),
    decreases required.len(),
{
    broadcast use vstd::set::group_set_axioms;

    let m = missing_names(required, supplied);
    if required.len() > 0 {
        lemma_missing_is_difference(required.drop_last(), supplied);
        let r0 = required.drop_last();
        assert forall|a: Seq<char>| #[trigger] required.contains(a) <==> (r0.contains(a) || a
            == required.last()) by {
            if required.contains(a) {
                let k = choose|k: int| 0 <= k < required.len() && required[k] == a;
                if k < required.len() - 1 {
                    assert(r0[k] == a);
                }
            }
            if r0.contains(a) {
                let k = choose|k: int| 0 <= k < r0.len() && r0[k] == a;
                assert(required[k] == a);
            }
            if a == required.last() {
                assert(required[required.len() - 1] == a);
            }
        }
        let m0 = missing_names(r0, supplied);
        assert forall|a: Seq<char>| #[trigger] m.contains(a) <==> (m0.contains(a) || (a
            == required.last() && !supplied.contains(a))) by {
            if !supplied.contains(required.last()) && !m0.contains(required.last()) {
                let mp = m0.push(required.last());
                if mp.contains(a) {
                    let k = choose|k: int| 0 <= k < mp.len() && mp[k] == a;
                    if k < m0.len() {
                        assert(m0[k] == a);
                    }
                }
                if m0.contains(a) {
                    let k = choose|k: int| 0 <= k < m0.len() && m0[k] == a;
                    assert(mp[k] == a);
                }
                if a == required.last() {
                    assert(mp[m0.len() as int] == a);
                }
            }
        }
        assert forall|a: Seq<char>| #[trigger] m.to_set().contains(a) == required.to_set().difference(
            supplied.to_set(),
        ).contains(a) by {
            assert(m0.to_set().contains(a) == r0.to_set().difference(supplied.to_set()).contains(a));
            assert(m.contains(a) <==> (m0.contains(a) || (a == required.last() && !supplied.contains(a))));
            assert(required.contains(a) <==> (r0.contains(a) || a == required.last()));
        }
        assert(m.to_set() =~= required.to_set().difference(supplied.to_set()));
    } else {
        assert forall|a: Seq<char>| !#[trigger] required.contains(a) && !m.contains(a) by {}
        assert(m.to_set() =~= required.to_set().difference(supplied.to_set()));
    }
    if m.len() == 0 {
        assert forall|a: Seq<char>| required.to_set().contains(a) implies supplied.to_set().contains(
            a,
        ) by {
            assert(!m.to_set().contains(a));
        }
    }
    if required.to_set().subset_of(supplied.to_set()) && m.len() > 0 {
        assert(m.to_set().contains(m[0]));
    }
}

/// No name is listed twice.
pub proof fn lemma_missing_no_duplicates(required: Seq<Seq<char>>, supplied: Seq<Seq<char>>)
    ensures
        missing_names(required, supplied).no_duplicates(),
    decreases required.len(),
{
    if required.len() > 0 {
        let m0 = missing_names(required.drop_last(), supplied);
        lemma_missing_no_duplicates(required.drop_last(), supplied);
        let x = required.last();
        if !supplied.contains(x) && !m0.contains(x) {
            let m = m0.push(x);
            assert forall|i: int, j: int| 0 <= i < m.len() && 0 <= j < m.len() && i != j implies m[i] != m[j] by {
                if i == m0.len() as int {
                    assert(m0[j] == m[j]);
                } else if j == m0.len() as int {
                    assert(m0[i] == m[i]);
                }
            }
        }
    }
}

/// Two enumerations of the same supplied set leave the same names missing,
/// in the same order.
pub proof fn lemma_missing_ignores_supplied_order(
    required: Seq<Seq<char>>,
    supplied1: Seq<Seq<char>>,
    supplied2: Seq<Seq<char>>,
)
    requires
        supplied1.to_set() == supplied2.to_set(),
    ensures
        missing_names(required, supplied1) == missing_names(required, supplied2),
    decreases required.len(),
{
    broadcast use vstd::set::group_set_axioms;

    if required.len() > 0 {
        lemma_missing_ignores_supplied_order(required.drop_last(), supplied1, supplied2);
        let x = required.last();
        assert(supplied1.to_set().contains(x) == supplied1.contains(x));
        assert(supplied2.to_set().contains(x) == supplied2.contains(x));
    } else {
        assert(missing_names(required, supplied1) =~= missing_names(required, supplied2));
    }
}

} // verus!
