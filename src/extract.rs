use vstd::prelude::*;
use quote::ToTokens;
use crate::schema::{names_unique, rule_view, DefaultRule, EntitySchema, FieldSpec, Requirement, RuleView};

verus! {

/// The marker attribute that makes a field optional.
pub const MARKER: &'static str = "optional";

/// The only key a marker's argument may assign.
pub const DEFAULT_KEY: &'static str = "default";

pub const SHAPE_MESSAGE: &'static str = "only structs with named fields can have optional fields";

pub const ANNOTATION_MESSAGE: &'static str =
    "Invalid attribute syntax. The correct syntax is #[optional] or #[optional(default = <expr>)]";

pub const DUPLICATE_MESSAGE: &'static str = "duplicate field name: ";

/// What follows an attribute's path.
pub enum AttrMeta {
    /// `#[name]`
    Path,
    /// `#[name(...)]`, with the text between the parentheses.
    List(String),
    /// `#[name = ...]`
    NameValue,
}

pub struct RawAttr {
    pub path: String,
    pub meta: AttrMeta,
}

/// A field as declared: its name (absent in a tuple struct), its type as
/// source text, and its attributes.
pub struct RawField {
    pub name: Option<String>,
    pub ty: String,
    pub attrs: Vec<RawAttr>,
}

/// A type declaration as written: its name, whether it is a struct, and the
/// fields of that struct.
pub struct Declaration {
    pub name: String,
    pub is_struct: bool,
    pub fields: Vec<RawField>,
}

pub enum SchemaError {
    /// The declaration is not a struct with named fields.
    NotRecord,
    /// A marker's argument is not `default = <expr>`.
    AnnotationSyntax,
    /// Two fields share the name.
    DuplicateField(String),
}

/// Relies on `syn::parse_str::<syn::ExprAssign>` to read `left = right`
/// (the whole input must be one assignment), and on quote's
/// `ToTokens::to_token_stream` to print each side back. How the sides are
/// printed, and which inputs lex at all, depend on whether the code runs
/// inside a macro expansion, so nothing is promised of the result.
#[verifier::external_body]
fn split_assign(s: &str) -> (r: Option<(String, String)>) {
    match syn::parse_str::<syn::ExprAssign>(s) {
        Ok(a) => Some((a.left.to_token_stream().to_string(), a.right.to_token_stream().to_string())),
        Err(_) => None,
    }
}

pub open spec fn pair_view(p: Option<(String, String)>) -> Option<(Seq<char>, Seq<char>)> {
    match p {
        Some(q) => Some((q.0@, q.1@)),
        None => None,
    }
}

/// The rule that a marker's argument states, given the argument split as an
/// assignment: `default = e` gives the explicit default `e`; anything else,
/// or no assignment at all, is malformed.
pub open spec fn split_rule(p: Option<(Seq<char>, Seq<char>)>) -> Option<RuleView> {
    match p {
        Some(q) => if q.0 == DEFAULT_KEY@ {
            Some(RuleView::Explicit(q.1))
        } else {
            None
        },
        None => None,
    }
}

/// Position of the first marker attribute.
pub open spec fn marker_index(attrs: Seq<RawAttr>) -> Option<int>
    decreases attrs.len(),
{
    if attrs.len() == 0 {
        None
    } else {
        match marker_index(attrs.drop_last()) {
            Some(i) => Some(i),
            None => if attrs.last().path@ == MARKER@ {
                Some(attrs.len() - 1)
            } else {
                None
            },
        }
    }
}

/// What a field's attributes allow its rule to be (`None`: malformed).
/// Without a marker it is required; a bare marker gives the implicit default;
/// `name = value` is malformed; a list argument gives an explicit default or
/// is malformed, as its parse decides.
pub open spec fn rule_allowed(attrs: Seq<RawAttr>, rv: Option<RuleView>) -> bool {
    match marker_index(attrs) {
        None => rv == Some(RuleView::Required),
        Some(i) => match attrs[i].meta {
            AttrMeta::Path => rv == Some(RuleView::Implicit),
            AttrMeta::List(_) => rv is None || rv matches Some(RuleView::Explicit(_)),
            AttrMeta::NameValue => rv is None,
        },
    }
}

/// The first marker is of the `name = value` form, which is always malformed.
pub open spec fn name_value_marker(attrs: Seq<RawAttr>) -> bool {
    marker_index(attrs) matches Some(i) && attrs[i].meta is NameValue
}

pub open spec fn has_name(f: RawField, n: Seq<char>) -> bool {
    f.name matches Some(a) && a@ == n
}

pub open spec fn name_view(f: RawField) -> Seq<char> {
    match f.name {
        Some(a) => a@,
        None => Seq::empty(),
    }
}

pub open spec fn decl_names_unique(d: Declaration) -> bool {
    forall|i: int, j: int|
        0 <= i < d.fields@.len() && 0 <= j < d.fields@.len() && i != j ==> name_view(
            #[trigger] d.fields@[i],
        ) != name_view(#[trigger] d.fields@[j])
}

pub open spec fn record_shaped(d: Declaration) -> bool {
    d.is_struct && forall|i: int| 0 <= i < d.fields@.len() ==> #[trigger] d.fields@[i].name is Some
}

/// The schema has the declaration's fields, in order, with their rules.
pub open spec fn schema_of(d: Declaration, s: EntitySchema) -> bool {
    &&& s.name@ == d.name@
    &&& s.fields@.len() == d.fields@.len()
    &&& forall|i: int|
        0 <= i < s.fields@.len() ==> {
            &&& d.fields@[i].name matches Some(n) && #[trigger] s.fields@[i].name@ == n@
            &&& s.fields@[i].ty@ == d.fields@[i].ty@
            &&& rule_allowed(d.fields@[i].attrs@, Some(rule_view(s.fields@[i].requirement)))
        }
}

impl SchemaError {
    pub fn message(&self) -> (r: String)
        ensures
            match self {
                SchemaError::NotRecord => r@ == SHAPE_MESSAGE@,
                SchemaError::AnnotationSyntax => r@ == ANNOTATION_MESSAGE@,
                SchemaError::DuplicateField(n) => r@ == DUPLICATE_MESSAGE@ + n@,
            },
    {
        match self {
            SchemaError::NotRecord => String::from_str(SHAPE_MESSAGE),
            SchemaError::AnnotationSyntax => String::from_str(ANNOTATION_MESSAGE),
            SchemaError::DuplicateField(n) => {
                let mut r = String::from_str(DUPLICATE_MESSAGE);
                r.append(n.as_str());
                r
            },
        }
    }
}

/// The index of the first marker attribute, if any.
pub fn find_marker(attrs: &Vec<RawAttr>) -> (r: Option<usize>)
    ensures
        match r {
            Some(i) => i < attrs@.len() && marker_index(attrs@) == Some(i as int),
            None => marker_index(attrs@) is None,
        },
{
    let marker = String::from_str(MARKER);
    let mut i: usize = 0;
    while i < attrs.len()
        invariant
            i <= attrs@.len(),
            marker@ == MARKER@,
            marker_index(attrs@.take(i as int)) is None,
        decreases attrs@.len() - i,
    {
        assert(attrs@.take(i + 1).drop_last() =~= attrs@.take(i as int));
        if attrs[i].path == marker {
            assert(marker_index(attrs@.take(i + 1)) == Some(i as int));
            proof {
                lemma_marker_index_extends(attrs@, i as int + 1);
            }
            return Some(i);
        }
        i = i + 1;
    }
    assert(attrs@.take(i as int) =~= attrs@);
    None
}

/// A marker found in a prefix is the marker of the whole list.
pub proof fn lemma_marker_index_extends(attrs: Seq<RawAttr>, k: int)
    requires
        0 <= k <= attrs.len(),
        marker_index(attrs.take(k)) is Some,
    ensures
        marker_index(attrs) == marker_index(attrs.take(k)),
    decreases attrs.len() - k,
{
    if k < attrs.len() {
        assert(attrs.take(k + 1).drop_last() =~= attrs.take(k));
        lemma_marker_index_extends(attrs, k + 1);
    } else {
        assert(attrs.take(k) =~= attrs);
    }
}

/// The requirement given by a marker's argument, split as an assignment.
pub fn rule_from_split(p: Option<(String, String)>) -> (r: Result<Requirement, SchemaError>)
    ensures
        match r {
            Ok(q) => split_rule(pair_view(p)) == Some(rule_view(q)),
            Err(e) => split_rule(pair_view(p)) is None && e is AnnotationSyntax,
        },
{
    match p {
        Some(q) => {
            let key = String::from_str(DEFAULT_KEY);
            if q.0 == key {
                Ok(Requirement::Optional(DefaultRule::Explicit(q.1)))
            } else {
                Err(SchemaError::AnnotationSyntax)
            }
        },
        None => Err(SchemaError::AnnotationSyntax),
    }
}

/// The requirement that a field's attributes state. A list argument is split
/// by the parser and read by `rule_from_split`.
pub fn requirement_of(attrs: &Vec<RawAttr>) -> (r: Result<Requirement, SchemaError>)
    ensures
        match r {
            Ok(q) => rule_allowed(attrs@, Some(rule_view(q))),
            Err(e) => rule_allowed(attrs@, None) && e is AnnotationSyntax,
        },
{
    match find_marker(attrs) {
        None => Ok(Requirement::Required),
        Some(i) => match &attrs[i].meta {
            AttrMeta::Path => Ok(Requirement::Optional(DefaultRule::Implicit)),
            AttrMeta::List(t) => rule_from_split(split_assign(t.as_str())),
            AttrMeta::NameValue => Err(SchemaError::AnnotationSyntax),
        },
    }
}

/// The position of a field whose name an earlier field already has.
pub fn first_duplicate(fields: &Vec<FieldSpec>) -> (r: Option<usize>)
    ensures
        r is None <==> names_unique(fields@),
        r matches Some(j) ==> j < fields@.len() && exists|i: int|
            0 <= i < j && #[trigger] fields@[i].name@ == fields@[j as int].name@,
        r matches Some(j) ==> forall|a: int, b: int|
            0 <= a < j && 0 <= b < j && a != b ==> fields@[a].name@ != fields@[b].name@,
{
    let mut j: usize = 0;
    while j < fields.len()
        invariant
            j <= fields@.len(),
            forall|a: int, b: int|
                0 <= a < j && 0 <= b < j && a != b ==> fields@[a].name@ != fields@[b].name@,
        decreases fields@.len() - j,
    {
        let mut i: usize = 0;
        while i < j
            invariant
                i <= j < fields@.len(),
                forall|a: int, b: int|
                    0 <= a < j && 0 <= b < j && a != b ==> fields@[a].name@ != fields@[b].name@,
                forall|a: int| 0 <= a < i ==> fields@[a].name@ != fields@[j as int].name@,
            decreases j - i,
        {
            if fields[i].name == fields[j].name {
                return Some(j);
            }
            i = i + 1;
        }
        j = j + 1;
    }
    None
}

/// Reads a declaration into a schema. Fails when it is not a struct with
/// named fields, then when a marker's argument is malformed, then when two
/// fields share a name, naming the first field whose name repeats an
/// earlier one.
pub fn extract_schema(decl: &Declaration) -> (r: Result<EntitySchema, SchemaError>)
    ensures
        (r matches Err(SchemaError::NotRecord)) <==> !record_shaped(*decl),
        r matches Err(SchemaError::AnnotationSyntax) ==> record_shaped(*decl) && exists|i: int|
            0 <= i < decl.fields@.len() && rule_allowed(#[trigger] decl.fields@[i].attrs@, None),
        record_shaped(*decl) && (exists|i: int|
            0 <= i < decl.fields@.len() && name_value_marker(#[trigger] decl.fields@[i].attrs@))
            ==> r matches Err(SchemaError::AnnotationSyntax),
        r matches Err(SchemaError::DuplicateField(n)) ==> record_shaped(*decl) && (forall|i: int|
            0 <= i < decl.fields@.len() ==> !name_value_marker(#[trigger] decl.fields@[i].attrs@))
            && exists|i: int, j: int|
            0 <= i < j < decl.fields@.len() && has_name(decl.fields@[i], n@) && has_name(
                decl.fields@[j],
                n@,
            ) && forall|a: int, b: int|
                0 <= a < j && 0 <= b < j && a != b ==> name_view(#[trigger] decl.fields@[a])
                    != name_view(#[trigger] decl.fields@[b]),
        r is Ok <==> record_shaped(*decl) && decl_names_unique(*decl) && !(r matches Err(
            SchemaError::AnnotationSyntax,
        )),
        r matches Ok(s) ==> s.wf() && schema_of(*decl, s),
{
    if !decl.is_struct {
        return Err(SchemaError::NotRecord);
    }
    let mut k: usize = 0;
    while k < decl.fields.len()
        invariant
            k <= decl.fields@.len(),
            forall|i: int| 0 <= i < k ==> #[trigger] decl.fields@[i].name is Some,
        decreases decl.fields@.len() - k,
    {
        if decl.fields[k].name.is_none() {
            return Err(SchemaError::NotRecord);
        }
        k = k + 1;
    }
    let mut fields: Vec<FieldSpec> = Vec::new();
    let mut i: usize = 0;
    while i < decl.fields.len()
        invariant
            i <= decl.fields@.len(),
            record_shaped(*decl),
            fields@.len() == i,
            forall|j: int| 0 <= j < i ==> !name_value_marker(#[trigger] decl.fields@[j].attrs@),
            forall|j: int|
                0 <= j < i ==> {
                    &&& decl.fields@[j].name matches Some(n) && #[trigger] fields@[j].name@ == n@
                    &&& fields@[j].ty@ == decl.fields@[j].ty@
                    &&& rule_allowed(decl.fields@[j].attrs@, Some(rule_view(fields@[j].requirement)))
                },
        decreases decl.fields@.len() - i,
    {
        let f = &decl.fields[i];
        let requirement = match requirement_of(&f.attrs) {
            Ok(q) => q,
            Err(e) => {
                assert(rule_allowed(f.attrs@, None));
                return Err(e);
            },
        };
        let name = match &f.name {
            Some(n) => n.clone(),
            None => {
                return Err(SchemaError::NotRecord);
            },
        };
        fields.push(FieldSpec { name, ty: f.ty.clone(), requirement });
        i = i + 1;
    }
    match first_duplicate(&fields) {
        Some(j) => {
            let ghost jj = j as int;
            let ghost ii = choose|ii: int| 0 <= ii < jj && #[trigger] fields@[ii].name@ == fields@[jj].name@;
            let n = fields[j].name.clone();
            assert(has_name(decl.fields@[ii], n@));
            assert(has_name(decl.fields@[jj], n@));
            assert(name_view(decl.fields@[ii]) == name_view(decl.fields@[jj]));
            assert forall|a: int, b: int|
                0 <= a < jj && 0 <= b < jj && a != b implies name_view(#[trigger] decl.fields@[a])
                    != name_view(#[trigger] decl.fields@[b]) by {
                assert(name_view(decl.fields@[a]) == fields@[a].name@);
                assert(name_view(decl.fields@[b]) == fields@[b].name@);
            }
            return Err(SchemaError::DuplicateField(n));
        },
        None => {},
    }
    assert forall|a: int, b: int|
        0 <= a < decl.fields@.len() && 0 <= b < decl.fields@.len() && a != b implies name_view(
        #[trigger] decl.fields@[a],
    ) != name_view(#[trigger] decl.fields@[b]) by {
        assert(name_view(decl.fields@[a]) == fields@[a].name@);
        assert(name_view(decl.fields@[b]) == fields@[b].name@);
    }
    let r = EntitySchema { name: decl.name.clone(), fields };
    assert forall|j: int| 0 <= j < r.fields@.len() implies rule_allowed(
        decl.fields@[j].attrs@,
        Some(rule_view(#[trigger] r.fields@[j].requirement)),
    ) by {
        assert(r.fields@[j] == fields@[j]);
        assert(decl.fields@[j].name matches Some(n) && fields@[j].name@ == n@);
    }
    assert(schema_of(*decl, r));
    Ok(r)
}

} // verus!
