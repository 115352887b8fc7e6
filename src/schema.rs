use vstd::prelude::*;

verus! {

/// Expression used for a field whose marker names no default of its own.
pub const IMPLICIT_DEFAULT: &'static str = "::std::default::Default::default()";

/// How an optional field obtains its value when nobody supplies one.
pub enum DefaultRule {
    /// The zero or empty value of the field's type.
    Implicit,
    /// An expression written by the schema author, kept as source text.
    Explicit(String),
}

pub enum Requirement {
    Required,
    Optional(DefaultRule),
}

/// One field of a record: its name, its type (as source text) and whether it
/// must be supplied.
pub struct FieldSpec {
    pub name: String,
    pub ty: String,
    pub requirement: Requirement,
}

/// An ordered list of fields with distinct names.
pub struct EntitySchema {
    pub name: String,
    pub fields: Vec<FieldSpec>,
}

/// A field's requirement, seen through the views of its strings.
pub enum RuleView {
    Required,
    Implicit,
    Explicit(Seq<char>),
}

pub open spec fn rule_view(r: Requirement) -> RuleView {
    match r {
        Requirement::Required => RuleView::Required,
        Requirement::Optional(DefaultRule::Implicit) => RuleView::Implicit,
        Requirement::Optional(DefaultRule::Explicit(e)) => RuleView::Explicit(e@),
    }
}

/// A finished record: one value (an expression) per field, in schema order.
pub struct Entity {
    pub values: Vec<String>,
}

pub open spec fn strings_view(v: Seq<String>) -> Seq<Seq<char>> {
    v.map_values(|s: String| s@)
}

pub proof fn lemma_strings_view_push(v: Seq<String>, s: String)
    ensures
        strings_view(v.push(s)) == strings_view(v).push(s@),
{
    assert(strings_view(v.push(s)) =~= strings_view(v).push(s@));
}

impl View for Entity {
    type V = Seq<Seq<char>>;

    open spec fn view(&self) -> Seq<Seq<char>> {
        strings_view(self.values@)
    }
}

pub open spec fn field_names(fields: Seq<FieldSpec>) -> Seq<Seq<char>> {
    fields.map_values(|f: FieldSpec| f.name@)
}

pub open spec fn names_unique(fields: Seq<FieldSpec>) -> bool {
    forall|i: int, j: int|
        0 <= i < fields.len() && 0 <= j < fields.len() && i != j ==> fields[i].name@
            != fields[j].name@
}

/// The names of the required fields, in declaration order.
pub open spec fn required_names(fields: Seq<FieldSpec>) -> Seq<Seq<char>>
    decreases fields.len(),
{
    if fields.len() == 0 {
        Seq::empty()
    } else {
        let rest = required_names(fields.drop_last());
        if fields.last().requirement is Required {
            rest.push(fields.last().name@)
        } else {
            rest
        }
    }
}

/// The value an optional field takes when it is left unset.
pub open spec fn default_value(f: FieldSpec) -> Seq<char> {
    match f.requirement {
        Requirement::Optional(DefaultRule::Explicit(e)) => e@,
        _ => IMPLICIT_DEFAULT@,
    }
}

impl EntitySchema {
    pub open spec fn wf(&self) -> bool {
        names_unique(self.fields@)
    }

    /// The names of the required fields, in declaration order.
    pub fn required_names(&self) -> (r: Vec<String>)
        ensures
            strings_view(r@) == required_names(self.fields@),
    {
        let mut r: Vec<String> = Vec::new();
        let mut i: usize = 0;
        while i < self.fields.len()
            invariant
                i <= self.fields@.len(),
                strings_view(r@) == required_names(self.fields@.take(i as int)),
            decreases self.fields@.len() - i,
        {
            let f = &self.fields[i];
            assert(self.fields@.take(i + 1).drop_last() =~= self.fields@.take(i as int));
            if matches!(f.requirement, Requirement::Required) {
                r.push(f.name.clone());
            }
            assert(strings_view(r@) =~= required_names(self.fields@.take(i + 1)));
            i = i + 1;
        }
        assert(self.fields@.take(i as int) =~= self.fields@);
        r
    }

    /// The position of the field called `name`, if there is one.
    pub fn position(&self, name: &String) -> (r: Option<usize>)
        requires
            self.wf(),
        ensures
            match r {
                Some(i) => i < self.fields@.len() && self.fields@[i as int].name@ == name@,
                None => !field_names(self.fields@).contains(name@),
            },
    {
        let mut i: usize = 0;
        while i < self.fields.len()
            invariant
                i <= self.fields@.len(),
                forall|j: int| 0 <= j < i ==> self.fields@[j].name@ != name@,
            decreases self.fields@.len() - i,
        {
            if self.fields[i].name == *name {
                return Some(i);
            }
            i = i + 1;
        }
        assert forall|j: int| 0 <= j < field_names(self.fields@).len() implies field_names(
            self.fields@,
        )[j] != name@ by {}
        None
    }

    /// The default expression of an optional field.
    pub fn default_of(&self, i: usize) -> (r: String)
        requires
            i < self.fields@.len(),
        ensures
            r@ == default_value(self.fields@[i as int]),
    {
        match &self.fields[i].requirement {
            Requirement::Optional(DefaultRule::Explicit(e)) => e.clone(),
            _ => String::from_str(IMPLICIT_DEFAULT),
        }
    }
}

} // verus!
