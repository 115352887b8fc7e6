use vstd::prelude::*;
use crate::schema::{
    default_value, field_names, lemma_strings_view_push, required_names, rule_view, strings_view,
    EntitySchema, FieldSpec, Requirement, RuleView,
};

verus! {

/// What a schema is, up to the identity of its strings.
pub open spec fn fields_view(fields: Seq<FieldSpec>) -> Seq<(Seq<char>, Seq<char>, RuleView)> {
    fields.map_values(|f: FieldSpec| (f.name@, f.ty@, rule_view(f.requirement)))
}

/// Everything a builder and a shorthand constructor for one schema are made
/// from: the field names in order, the required names, which positions the
/// finalizer demands, and each optional field's default.
pub struct Rules {
    pub name: String,
    pub fields: Vec<String>,
    pub required: Vec<String>,
    pub mask: Vec<bool>,
    pub defaults: Vec<Option<String>>,
}

pub open spec fn mask_of(fields: Seq<FieldSpec>) -> Seq<bool> {
    fields.map_values(|f: FieldSpec| f.requirement is Required)
}

pub open spec fn defaults_of(fields: Seq<FieldSpec>) -> Seq<Option<Seq<char>>> {
    fields.map_values(
        |f: FieldSpec|
            if f.requirement is Required {
                None
            } else {
                Some(default_value(f))
            },
    )
}

pub open spec fn opt_view(o: Option<String>) -> Option<Seq<char>> {
    match o {
        Some(s) => Some(s@),
        None => None,
    }
}

impl View for Rules {
    type V = (Seq<char>, Seq<Seq<char>>, Seq<Seq<char>>, Seq<bool>, Seq<Option<Seq<char>>>);

    open spec fn view(&self) -> Self::V {
        (
            self.name@,
            strings_view(self.fields@),
            strings_view(self.required@),
            self.mask@,
            self.defaults@.map_values(|o: Option<String>| opt_view(o)),
        )
    }
}

pub open spec fn rules_of(s: EntitySchema) -> (
    Seq<char>,
    Seq<Seq<char>>,
    Seq<Seq<char>>,
    Seq<bool>,
    Seq<Option<Seq<char>>>,
) {
    (
        s.name@,
        field_names(s.fields@),
        required_names(s.fields@),
        mask_of(s.fields@),
        defaults_of(s.fields@),
    )
}

/// Derives the rules of a schema.
pub fn generate_rules(schema: &EntitySchema) -> (r: Rules)
    ensures
        r@ == rules_of(*schema),
{
    let required = schema.required_names();
    let mut fields: Vec<String> = Vec::new();
    let mut mask: Vec<bool> = Vec::new();
    let mut defaults: Vec<Option<String>> = Vec::new();
    let mut i: usize = 0;
    while i < schema.fields.len()
        invariant
            i <= schema.fields@.len(),
            strings_view(fields@) == field_names(schema.fields@.take(i as int)),
            mask@ == mask_of(schema.fields@.take(i as int)),
            defaults@.map_values(|o: Option<String>| opt_view(o)) == defaults_of(
                schema.fields@.take(i as int),
            ),
        decreases schema.fields@.len() - i,
    {
        let f = &schema.fields[i];
        let ghost t = schema.fields@.take(i + 1);
        let ghost t0 = schema.fields@.take(i as int);
        assert(t =~= t0.push(schema.fields@[i as int]));
        let ghost before = fields@;
        let name = f.name.clone();
        fields.push(name);
        proof {
            lemma_strings_view_push(before, name);
        }
        assert(field_names(t) =~= field_names(t0).push(f.name@));
        let required_here = matches!(f.requirement, Requirement::Required);
        mask.push(required_here);
        assert(mask@ =~= mask_of(t));
        let ghost dbefore = defaults@;
        let d = if required_here {
            None
        } else {
            Some(schema.default_of(i))
        };
        defaults.push(d);
        assert(defaults@ == dbefore.push(d));
        assert(defaults@.map_values(|o: Option<String>| opt_view(o)) =~= dbefore.map_values(
            |o: Option<String>| opt_view(o),
        ).push(opt_view(d)));
        assert(defaults@.map_values(|o: Option<String>| opt_view(o)) =~= defaults_of(t));
        i = i + 1;
    }
    assert(schema.fields@.take(i as int) =~= schema.fields@);
    Rules { name: schema.name.clone(), fields, required, mask, defaults }
}

/// Synthesis is a function of the schema: two schemas with the same name and
/// the same fields (names, types, rules, in the same order) yield the same
/// rules.
pub proof fn lemma_rules_depend_on_schema_alone(a: EntitySchema, b: EntitySchema)
    requires
        a.name@ == b.name@,
        fields_view(a.fields@) == fields_view(b.fields@),
    ensures
        rules_of(a) == rules_of(b),
{
    lemma_rules_fields(a.fields@, b.fields@);
}

proof fn lemma_rules_fields(a: Seq<FieldSpec>, b: Seq<FieldSpec>)
    requires
        fields_view(a) == fields_view(b),
    ensures
        field_names(a) == field_names(b),
        required_names(a) == required_names(b),
        mask_of(a) == mask_of(b),
        defaults_of(a) == defaults_of(b),
    decreases a.len(),
{
    assert(a.len() == fields_view(a).len());
    assert forall|i: int| 0 <= i < a.len() implies a[i].name@ == b[i].name@ && (
    a[i].requirement is Required <==> b[i].requirement is Required) && default_value(a[i])
        == default_value(b[i]) by {
        assert(fields_view(a)[i] == fields_view(b)[i]);
    }
    assert(field_names(a) =~= field_names(b));
    assert(mask_of(a) =~= mask_of(b));
    assert(defaults_of(a) =~= defaults_of(b));
    if a.len() > 0 {
        assert forall|i: int| 0 <= i < a.len() - 1 implies fields_view(a.drop_last())[i]
            == fields_view(b.drop_last())[i] by {
            assert(fields_view(a)[i] == fields_view(b)[i]);
            assert(a.drop_last()[i] == a[i]);
            assert(b.drop_last()[i] == b[i]);
        }
        assert(fields_view(a.drop_last()) =~= fields_view(b.drop_last()));
        lemma_rules_fields(a.drop_last(), b.drop_last());
        assert(a.last().name@ == b.last().name@);
    }
}

} // verus!
