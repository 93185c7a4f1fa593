//! The compiled schema and its two evaluation modes: a boolean answer and the full list of errors.
use vstd::prelude::*;
use vstd::string::*;
use crate::json::{get_member, Json, JsonModel, Number, lemma_object_view};
use crate::keywords::{
    compile_keywords, compile_schema, compile_validators, lemma_properties_view, lemma_property_names_view,
    views, Node, PrimitiveType, Validator,
};
use crate::render::{decimal, json_text, number_text, push_decimal, push_json, push_number, push_str};
use crate::number::{is_integer, is_integer_spec, num_ge, number_ge};
use crate::resolver::{collect_ids, document_views, find_schemas, resolve_spec, ResolveError, Resolver};
use crate::scope::{
    draft_from_schema, draft_from_schema_spec, root_scope, root_scope_of, CompilationContext,
    CompilationError, Draft,
};

verus! {

/// How many references one evaluation may follow in a chain.
pub const MAX_REFERENCE_DEPTH: u64 = 256;

/// The constraint that an instance failed.
#[derive(Clone, Copy, Debug, PartialEq, Eq)]
pub enum ValidationErrorKind {
    /// The schema `false`.
    FalseSchema,
    /// `type`: the instance is of none of the named types.
    Type,
    /// `minimum`, with its limit.
    Minimum(Number),
    MinLength(u64),
    MinProperties(u64),
    /// A reference could not be resolved.
    InvalidReference(ResolveError),
    /// A reference's target could not be compiled.
    InvalidReferenceTarget(CompilationError),
    /// References were followed deeper than the depth limit.
    RecursionLimit,
}

/// One failed constraint: the failing value and the constraint's kind.
#[derive(Debug)]
pub struct ValidationError {
    pub instance: Json,
    pub kind: ValidationErrorKind,
}

/// A JSON Schema compiled into a tree of validators.
#[derive(Debug)]
pub struct JSONSchema {
    pub draft: Draft,
    pub schema: Json,
    pub validators: Vec<Validator>,
    pub resolver: Resolver,
}

/// What evaluation reads besides the validators: the documents, their URLs and the draft.
pub struct Env {
    pub root: JsonModel,
    pub root_scope: Seq<char>,
    pub documents: Seq<(Seq<char>, JsonModel)>,
    pub draft: Draft,
}

impl JSONSchema {
    /// What evaluation against this schema reads besides its validators.
    pub open spec fn env(&self) -> Env {
        Env {
            root: self.schema@,
            root_scope: self.resolver.root_scope@,
            documents: document_views(self.resolver.documents@),
            draft: self.draft,
        }
    }
}

/// The kinds and failing values of a list of errors.
pub open spec fn error_views(errors: Seq<ValidationError>) -> Seq<(ValidationErrorKind, JsonModel)> {
    Seq::new(errors.len(), |i: int| (errors[i].kind, errors[i].instance@))
}

/// The instance is of type `t`.
pub open spec fn type_matches(t: PrimitiveType, instance: JsonModel) -> bool {
    match t {
        PrimitiveType::Array => instance is Array,
        PrimitiveType::Boolean => instance is Bool,
        PrimitiveType::Integer => instance matches JsonModel::Number(n) && is_integer_spec(n),
        PrimitiveType::Null => instance is Null,
        PrimitiveType::Number => instance is Number,
        PrimitiveType::Object => instance is Object,
        PrimitiveType::String => instance is String,
    }
}

/// One of the types `ts[i..]` matches the instance.
pub open spec fn any_type_matches(ts: Seq<PrimitiveType>, instance: JsonModel, i: nat) -> bool
    decreases ts.len() - i,
{
    i < ts.len() && (type_matches(ts[i as int], instance) || any_type_matches(ts, instance, i + 1))
}

/// The errors of one node that involve no subschema.
pub open spec fn leaf_errors(node: Node, instance: JsonModel) -> Seq<(ValidationErrorKind, JsonModel)> {
    match node {
        Node::False => seq![(ValidationErrorKind::FalseSchema, instance)],
        Node::Type(ts) => if any_type_matches(ts, instance, 0) {
            Seq::empty()
        } else {
            seq![(ValidationErrorKind::Type, instance)]
        },
        Node::Minimum(limit) => match instance {
            JsonModel::Number(n) => if number_ge(n, limit) { Seq::empty() } else { seq![(ValidationErrorKind::Minimum(limit), instance)] },
            _ => Seq::empty(),
        },
        Node::MinLength(l) => match instance {
            JsonModel::String(s) => if s.len() < l { seq![(ValidationErrorKind::MinLength(l), instance)] } else { Seq::empty() },
            _ => Seq::empty(),
        },
        Node::MinProperties(l) => match instance {
            JsonModel::Object(es) => if es.len() < l { seq![(ValidationErrorKind::MinProperties(l), instance)] } else { Seq::empty() },
            _ => Seq::empty(),
        },
        _ => Seq::empty(),
    }
}

/// The errors of `node` against `instance`, following at most `fuel` references in a chain.
pub open spec fn node_errors(s: Env, node: Node, instance: JsonModel, fuel: nat) -> Seq<(ValidationErrorKind, JsonModel)>
    decreases fuel, node, 1nat, 0nat,
{
    match node {
        Node::Ref(url) => if fuel == 0 {
            seq![(ValidationErrorKind::RecursionLimit, instance)]
        } else {
            match resolve_spec(s.root, s.root_scope, s.documents, url) {
                Err(e) => seq![(ValidationErrorKind::InvalidReference(e), instance)],
                Ok((scope, target)) => match compile_schema(target, scope, s.draft) {
                    Err(e) => seq![(ValidationErrorKind::InvalidReferenceTarget(e), instance)],
                    Ok(ns) => list_errors(s, ns, instance, (fuel - 1) as nat, 0),
                },
            }
        },
        Node::Properties(ps) => match instance {
            JsonModel::Object(es) => properties_errors(s, node, instance, fuel, 0),
            _ => Seq::empty(),
        },
        Node::PropertyNames(ns) => match instance {
            JsonModel::Object(es) => names_errors(s, node, instance, fuel, 0),
            _ => Seq::empty(),
        },
        _ => leaf_errors(node, instance),
    }
}

/// The errors of the declared properties `k..` of a `properties` node.
pub open spec fn properties_errors(s: Env, node: Node, instance: JsonModel, fuel: nat, k: nat) -> Seq<(ValidationErrorKind, JsonModel)>
    decreases fuel, node, 0nat, (match node { Node::Properties(ps) => ps.len(), _ => 0 }) - k,
{
    match (node, instance) {
        (Node::Properties(ps), JsonModel::Object(es)) => if k >= ps.len() {
            Seq::empty()
        } else {
            let here = match get_member(es, ps[k as int].0) {
                Some(v) => list_errors(s, ps[k as int].1, v, fuel, 0),
                None => Seq::empty(),
            };
            here + properties_errors(s, node, instance, fuel, k + 1)
        },
        _ => Seq::empty(),
    }
}

/// The errors of the instance's member names `k..` against a `propertyNames` node.
pub open spec fn names_errors(s: Env, node: Node, instance: JsonModel, fuel: nat, k: nat) -> Seq<(ValidationErrorKind, JsonModel)>
    decreases fuel, node, 0nat, (match instance { JsonModel::Object(es) => es.len(), _ => 0 }) - k,
{
    match (node, instance) {
        (Node::PropertyNames(ns), JsonModel::Object(es)) => if k >= es.len() {
            Seq::empty()
        } else {
            list_errors(s, ns, JsonModel::String(es[k as int].0), fuel, 0) + names_errors(s, node, instance, fuel, k + 1)
        },
        _ => Seq::empty(),
    }
}

/// The errors of nodes `i..` of a list, in order.
pub open spec fn list_errors(s: Env, ns: Seq<Node>, instance: JsonModel, fuel: nat, i: nat) -> Seq<(ValidationErrorKind, JsonModel)>
    decreases fuel, ns, 0nat, ns.len() - i,
{
    if i >= ns.len() {
        Seq::empty()
    } else {
        node_errors(s, ns[i as int], instance, fuel) + list_errors(s, ns, instance, fuel, i + 1)
    }
}

/// The instance meets `node`, following at most `fuel` references in a chain.
pub open spec fn node_valid(s: Env, node: Node, instance: JsonModel, fuel: nat) -> bool
    decreases fuel, node, 1nat, 0nat,
{
    match node {
        Node::Ref(url) => fuel > 0 && match resolve_spec(s.root, s.root_scope, s.documents, url) {
            Err(e) => false,
            Ok((scope, target)) => match compile_schema(target, scope, s.draft) {
                Err(e) => false,
                Ok(ns) => list_valid(s, ns, instance, (fuel - 1) as nat, 0),
            },
        },
        Node::Properties(ps) => match instance {
            JsonModel::Object(es) => properties_valid(s, node, instance, fuel, 0),
            _ => true,
        },
        Node::PropertyNames(ns) => match instance {
            JsonModel::Object(es) => names_valid(s, node, instance, fuel, 0),
            _ => true,
        },
        _ => leaf_errors(node, instance).len() == 0,
    }
}

/// The instance meets the declared properties `k..` of a `properties` node.
pub open spec fn properties_valid(s: Env, node: Node, instance: JsonModel, fuel: nat, k: nat) -> bool
    decreases fuel, node, 0nat, (match node { Node::Properties(ps) => ps.len(), _ => 0 }) - k,
{
    match (node, instance) {
        (Node::Properties(ps), JsonModel::Object(es)) => k >= ps.len() || ((match get_member(es, ps[k as int].0) {
            Some(v) => list_valid(s, ps[k as int].1, v, fuel, 0),
            None => true,
        }) && properties_valid(s, node, instance, fuel, k + 1)),
        _ => true,
    }
}

/// The instance's member names `k..` meet a `propertyNames` node.
pub open spec fn names_valid(s: Env, node: Node, instance: JsonModel, fuel: nat, k: nat) -> bool
    decreases fuel, node, 0nat, (match instance { JsonModel::Object(es) => es.len(), _ => 0 }) - k,
{
    match (node, instance) {
        (Node::PropertyNames(ns), JsonModel::Object(es)) => k >= es.len() || (list_valid(
            s,
            ns,
            JsonModel::String(es[k as int].0),
            fuel,
            0,
        ) && names_valid(s, node, instance, fuel, k + 1)),
        _ => true,
    }
}

/// The instance meets every node `i..` of a list.
pub open spec fn list_valid(s: Env, ns: Seq<Node>, instance: JsonModel, fuel: nat, i: nat) -> bool
    decreases fuel, ns, 0nat, ns.len() - i,
{
    i >= ns.len() || (node_valid(s, ns[i as int], instance, fuel) && list_valid(s, ns, instance, fuel, i + 1))
}


/// For every node and instance, the boolean answer holds exactly when there is no error.
pub proof fn lemma_node_consistent(s: Env, node: Node, instance: JsonModel, fuel: nat)
    ensures
        node_valid(s, node, instance, fuel) == (node_errors(s, node, instance, fuel).len() == 0),
    decreases fuel, node, 1nat, 0nat,
{
    match node {
        Node::Ref(url) => if fuel > 0 {
            match resolve_spec(s.root, s.root_scope, s.documents, url) {
                Err(e) => {},
                Ok((scope, target)) => match compile_schema(target, scope, s.draft) {
                    Err(e) => {},
                    Ok(ns) => lemma_list_consistent(s, ns, instance, (fuel - 1) as nat, 0),
                },
            }
        },
        Node::Properties(ps) => if instance is Object {
            lemma_properties_consistent(s, node, instance, fuel, 0);
        },
        Node::PropertyNames(ns) => if instance is Object {
            lemma_names_consistent(s, node, instance, fuel, 0);
        },
        _ => {},
    }
}

/// The boolean answer of a `properties` node holds exactly when it has no error.
pub proof fn lemma_properties_consistent(s: Env, node: Node, instance: JsonModel, fuel: nat, k: nat)
    ensures
        properties_valid(s, node, instance, fuel, k) == (properties_errors(s, node, instance, fuel, k).len() == 0),
    decreases fuel, node, 0nat, (match node { Node::Properties(ps) => ps.len(), _ => 0 }) - k,
{
    match (node, instance) {
        (Node::Properties(ps), JsonModel::Object(es)) => if k < ps.len() {
            match get_member(es, ps[k as int].0) {
                Some(v) => lemma_list_consistent(s, ps[k as int].1, v, fuel, 0),
                None => {},
            }
            lemma_properties_consistent(s, node, instance, fuel, k + 1);
        },
        _ => {},
    }
}

/// The boolean answer of a `propertyNames` node holds exactly when it has no error.
pub proof fn lemma_names_consistent(s: Env, node: Node, instance: JsonModel, fuel: nat, k: nat)
    ensures
        names_valid(s, node, instance, fuel, k) == (names_errors(s, node, instance, fuel, k).len() == 0),
    decreases fuel, node, 0nat, (match instance { JsonModel::Object(es) => es.len(), _ => 0 }) - k,
{
    match (node, instance) {
        (Node::PropertyNames(ns), JsonModel::Object(es)) => if k < es.len() {
            lemma_list_consistent(s, ns, JsonModel::String(es[k as int].0), fuel, 0);
            lemma_names_consistent(s, node, instance, fuel, k + 1);
        },
        _ => {},
    }
}

/// The boolean answer of a list of nodes holds exactly when the list has no error.
pub proof fn lemma_list_consistent(s: Env, ns: Seq<Node>, instance: JsonModel, fuel: nat, i: nat)
    ensures
        list_valid(s, ns, instance, fuel, i) == (list_errors(s, ns, instance, fuel, i).len() == 0),
    decreases fuel, ns, 0nat, ns.len() - i,
{
    if i < ns.len() {
        lemma_node_consistent(s, ns[i as int], instance, fuel);
        lemma_list_consistent(s, ns, instance, fuel, i + 1);
    }
}


/// Every error of a compiled schema against an instance, in order.
pub open spec fn schema_errors(s: JSONSchema, instance: JsonModel) -> Seq<(ValidationErrorKind, JsonModel)> {
    list_errors(s.env(), views(s.validators@), instance, MAX_REFERENCE_DEPTH as nat, 0)
}

/// The instance meets a compiled schema.
pub open spec fn schema_valid(s: JSONSchema, instance: JsonModel) -> bool {
    list_valid(s.env(), views(s.validators@), instance, MAX_REFERENCE_DEPTH as nat, 0)
}

/// The draft a document is compiled under: the one asked for, else the one it names, else Draft 7.
pub open spec fn chosen_draft(schema: JsonModel, draft: Option<Draft>) -> Draft {
    match draft {
        Some(d) => d,
        None => match draft_from_schema_spec(schema) {
            Some(d) => d,
            None => Draft::Draft7,
        },
    }
}

/// What compiling `schema` asked under `draft` gives: the validators' meaning, or the error.
pub open spec fn compile_result(schema: JsonModel, draft: Option<Draft>) -> Result<Seq<Node>, CompilationError> {
    let d = chosen_draft(schema, draft);
    match root_scope(d, schema) {
        Err(e) => Err(e),
        Ok(scope) => match collect_ids(d, schema, scope) {
            Err(e) => Err(e),
            Ok(_) => compile_schema(schema, scope, d),
        },
    }
}

/// `c` is what compiling `schema` under `draft` gives.
pub open spec fn compiled_from(c: JSONSchema, schema: JsonModel, draft: Option<Draft>) -> bool {
    let d = chosen_draft(schema, draft);
    &&& compile_result(schema, draft) == Ok::<Seq<Node>, CompilationError>(views(c.validators@))
    &&& c.schema@ == schema
    &&& c.draft == d
    &&& root_scope(d, schema) == Ok::<Seq<char>, CompilationError>(c.resolver.root_scope@)
    &&& collect_ids(d, schema, c.resolver.root_scope@) == Ok::<Seq<(Seq<char>, JsonModel)>, CompilationError>(
        document_views(c.resolver.documents@),
    )
}

/// A single error of `kind` on `instance`.
fn single_error(instance: &Json, kind: ValidationErrorKind) -> (r: Vec<ValidationError>)
    ensures
        error_views(r@) == seq![(kind, instance@)],
{
    let r = vec![ValidationError { instance: instance.copy(), kind }];
    assert(error_views(r@) =~= seq![(kind, instance@)]);
    r
}

/// The instance is of type `t`.
fn type_check(t: PrimitiveType, instance: &Json) -> (r: bool)
    ensures
        r == type_matches(t, instance@),
{
    match t {
        PrimitiveType::Array => matches!(instance, Json::Array(_)),
        PrimitiveType::Boolean => matches!(instance, Json::Bool(_)),
        PrimitiveType::Integer => match instance {
            Json::Number(n) => is_integer(*n),
            _ => false,
        },
        PrimitiveType::Null => matches!(instance, Json::Null),
        PrimitiveType::Number => matches!(instance, Json::Number(_)),
        PrimitiveType::Object => matches!(instance, Json::Object(_)),
        PrimitiveType::String => matches!(instance, Json::String(_)),
    }
}

/// The errors of a validator that involves no subschema.
fn leaf_check(v: &Validator, instance: &Json) -> (r: Vec<ValidationError>)
    requires
        !(v is Ref || v is Properties || v is PropertyNames),
    ensures
        error_views(r@) == leaf_errors(v@, instance@),
{
    let none: Vec<ValidationError> = Vec::new();
    assert(error_views(none@) =~= Seq::<(ValidationErrorKind, JsonModel)>::empty());
    match v {
        Validator::True => none,
        Validator::False => single_error(instance, ValidationErrorKind::FalseSchema),
        Validator::Type(ts) => {
            let mut i: usize = 0;
            while i < ts.len()
                invariant
                    i <= ts@.len(),
                    error_views(none@) == Seq::<(ValidationErrorKind, JsonModel)>::empty(),
                    v@ == Node::Type(ts@),
                    any_type_matches(ts@, instance@, 0) == any_type_matches(ts@, instance@, i as nat),
                decreases ts.len() - i,
            {
                if type_check(ts[i], instance) {
                    return none;
                }
                i = i + 1;
            }
            single_error(instance, ValidationErrorKind::Type)
        },
        Validator::MinimumU64(m) => minimum_check(Number::Unsigned(m.limit), instance),
        Validator::MinimumI64(m) => minimum_check(Number::Signed(m.limit), instance),
        Validator::MinimumF64(m) => minimum_check(Number::Float { mantissa: m.mantissa, exponent: m.exponent }, instance),
        Validator::MinLength(l) => match instance {
            Json::String(s) => if (s.as_str().unicode_len() as u64) < *l {
                single_error(instance, ValidationErrorKind::MinLength(*l))
            } else {
                none
            },
            _ => none,
        },
        Validator::MinProperties(l) => match instance {
            Json::Object(es) => {
                proof {
                    lemma_object_view(instance);
                }
                if (es.len() as u64) < *l {
                    single_error(instance, ValidationErrorKind::MinProperties(*l))
                } else {
                    none
                }
            },
            _ => none,
        },
        _ => none,
    }
}

/// The errors of `minimum` with `limit`: numbers are compared exactly, other values pass.
fn minimum_check(limit: Number, instance: &Json) -> (r: Vec<ValidationError>)
    ensures
        error_views(r@) == leaf_errors(Node::Minimum(limit), instance@),
{
    match instance {
        Json::Number(n) => if num_ge(n.classify(), limit) {
            let none: Vec<ValidationError> = Vec::new();
            assert(error_views(none@) =~= Seq::<(ValidationErrorKind, JsonModel)>::empty());
            proof {
                lemma_ge_classified(*n, limit);
            }
            none
        } else {
            proof {
                lemma_ge_classified(*n, limit);
            }
            single_error(instance, ValidationErrorKind::Minimum(limit))
        },
        _ => {
            let none: Vec<ValidationError> = Vec::new();
            assert(error_views(none@) =~= Seq::<(ValidationErrorKind, JsonModel)>::empty());
            none
        },
    }
}

proof fn lemma_ge_classified(n: Number, limit: Number)
    ensures
        number_ge(crate::number::classify_spec(n), limit) == number_ge(n, limit),
{
    assert(crate::number::pow2(0) == 1);
    assert(crate::number::mantissa_of(n) * 1 == crate::number::mantissa_of(n));
    assert(crate::number::mantissa_of(limit) * 1 == crate::number::mantissa_of(limit));
}

impl JSONSchema {
    /// The errors of one validator, following at most `fuel` references in a chain.
    fn node_check(&self, v: &Validator, instance: &Json, fuel: u64) -> (r: Vec<ValidationError>)
        ensures
            error_views(r@) == node_errors(self.env(), v@, instance@, fuel as nat),
        decreases fuel, v@, 1nat, 0nat,
    {
        match v {
            Validator::Ref(url) => {
                if fuel == 0 {
                    return single_error(instance, ValidationErrorKind::RecursionLimit);
                }
                match self.resolver.resolve_fragment(&self.schema, url.as_str()) {
                    Err(e) => single_error(instance, ValidationErrorKind::InvalidReference(e)),
                    Ok((scope, target)) => {
                        let ctx = CompilationContext::new(scope, self.draft);
                        match compile_validators(target, &ctx) {
                            Err(e) => single_error(instance, ValidationErrorKind::InvalidReferenceTarget(e)),
                            Ok(vs) => self.list_check(&vs, instance, fuel - 1),
                        }
                    },
                }
            },
            Validator::Properties(ps) => match instance {
                Json::Object(_) => {
                    proof {
                        lemma_properties_view(v);
                    }
                    let ghost node = v@;
                    let mut out: Vec<ValidationError> = Vec::new();
                    let mut k: usize = 0;
                    while k < ps.len()
                        invariant
                            k <= ps@.len(),
                            node == v@,
                            node is Properties,
                            instance@ is Object,
                            node->Properties_0.len() == ps@.len(),
                            forall|i: int| 0 <= i < ps@.len() ==> #[trigger] node->Properties_0[i] == (ps@[i].0@, views(ps@[i].1@)),
                            properties_errors(self.env(), node, instance@, fuel as nat, 0) == error_views(out@) + properties_errors(self.env(), node, instance@, fuel as nat, k as nat),
                        decreases ps.len() - k,
                    {
                        assert(node->Properties_0[k as int] == (ps@[k as int].0@, views(ps@[k as int].1@)));
                        match instance.get(ps[k].0.as_str()) {
                            Some(value) => {
                                proof {
                                    assert(decreases_to!(node => node->Properties_0));
                                    assert(decreases_to!(node->Properties_0 => node->Properties_0[k as int]));
                                    assert(decreases_to!(node->Properties_0[k as int] => node->Properties_0[k as int].1));
                                }
                                let mut more = self.list_check(&ps[k].1, value, fuel);
                                let ghost before = out@;
                        let ghost added = more@;
                                out.append(&mut more);
                                assert(error_views(out@) =~= error_views(before) + error_views(added));
                                assert(error_views(before) + (error_views(added) + properties_errors(self.env(), node, instance@, fuel as nat, (k + 1) as nat))
                                    =~= error_views(out@) + properties_errors(self.env(), node, instance@, fuel as nat, (k + 1) as nat));
                            },
                            None => {},
                        }
                        k = k + 1;
                    }
                    assert(error_views(out@) + Seq::<(ValidationErrorKind, JsonModel)>::empty() =~= error_views(out@));
                    out
                },
                _ => {
                    let none: Vec<ValidationError> = Vec::new();
                    assert(error_views(none@) =~= Seq::<(ValidationErrorKind, JsonModel)>::empty());
                    none
                },
            },
            Validator::PropertyNames(ns) => match instance {
                Json::Object(es) => {
                    proof {
                        lemma_property_names_view(v);
                        lemma_object_view(instance);
                    }
                    let ghost node = v@;
                    let mut out: Vec<ValidationError> = Vec::new();
                    let mut k: usize = 0;
                    while k < es.len()
                        invariant
                            k <= es@.len(),
                            node == v@,
                            node == Node::PropertyNames(views(ns@)),
                            instance@ is Object,
                            instance@->Object_0.len() == es@.len(),
                            forall|i: int| 0 <= i < es@.len() ==> #[trigger] instance@->Object_0[i] == (es@[i].0@, es@[i].1@),
                            names_errors(self.env(), node, instance@, fuel as nat, 0) == error_views(out@) + names_errors(self.env(), node, instance@, fuel as nat, k as nat),
                        decreases es.len() - k,
                    {
                        assert(instance@->Object_0[k as int] == (es@[k as int].0@, es@[k as int].1@));
                        let name = Json::String(es[k].0.clone());
                        proof {
                            assert(decreases_to!(node => node->PropertyNames_0));
                        }
                        let mut more = self.list_check(ns, &name, fuel);
                        let ghost before = out@;
                        let ghost added = more@;
                        out.append(&mut more);
                        assert(error_views(out@) =~= error_views(before) + error_views(added));
                        assert(error_views(before) + (error_views(added) + names_errors(self.env(), node, instance@, fuel as nat, (k + 1) as nat))
                            =~= error_views(out@) + names_errors(self.env(), node, instance@, fuel as nat, (k + 1) as nat));
                        k = k + 1;
                    }
                    assert(error_views(out@) + Seq::<(ValidationErrorKind, JsonModel)>::empty() =~= error_views(out@));
                    out
                },
                _ => {
                    let none: Vec<ValidationError> = Vec::new();
                    assert(error_views(none@) =~= Seq::<(ValidationErrorKind, JsonModel)>::empty());
                    none
                },
            },
            _ => leaf_check(v, instance),
        }
    }

    /// The errors of a list of validators, in order.
    fn list_check(&self, vs: &Vec<Validator>, instance: &Json, fuel: u64) -> (r: Vec<ValidationError>)
        ensures
            error_views(r@) == list_errors(self.env(), views(vs@), instance@, fuel as nat, 0),
        decreases fuel, views(vs@), 0nat, 0nat,
    {
        let ghost ns = views(vs@);
        let mut out: Vec<ValidationError> = Vec::new();
        let mut i: usize = 0;
        while i < vs.len()
            invariant
                i <= vs@.len(),
                ns == views(vs@),
                list_errors(self.env(), ns, instance@, fuel as nat, 0) == error_views(out@) + list_errors(self.env(), ns, instance@, fuel as nat, i as nat),
            decreases vs.len() - i,
        {
            proof {
                assert(decreases_to!(ns => ns[i as int]));
            }
            let mut more = self.node_check(&vs[i], instance, fuel);
            let ghost before = out@;
                        let ghost added = more@;
            out.append(&mut more);
            assert(error_views(out@) =~= error_views(before) + error_views(added));
            assert(error_views(before) + (error_views(added) + list_errors(self.env(), ns, instance@, fuel as nat, (i + 1) as nat))
                =~= error_views(out@) + list_errors(self.env(), ns, instance@, fuel as nat, (i + 1) as nat));
            i = i + 1;
        }
        assert(error_views(out@) + Seq::<(ValidationErrorKind, JsonModel)>::empty() =~= error_views(out@));
        out
    }
}


/// Whether a validator that involves no subschema accepts the instance.
fn leaf_accepts(v: &Validator, instance: &Json) -> (r: bool)
    requires
        !(v is Ref || v is Properties || v is PropertyNames),
    ensures
        r == (leaf_errors(v@, instance@).len() == 0),
{
    match v {
        Validator::True => true,
        Validator::False => false,
        Validator::Type(ts) => {
            let mut i: usize = 0;
            while i < ts.len()
                invariant
                    i <= ts@.len(),
                    v@ == Node::Type(ts@),
                    any_type_matches(ts@, instance@, 0) == any_type_matches(ts@, instance@, i as nat),
                decreases ts.len() - i,
            {
                if type_check(ts[i], instance) {
                    return true;
                }
                i = i + 1;
            }
            false
        },
        Validator::MinimumU64(m) => minimum_accepts(Number::Unsigned(m.limit), instance),
        Validator::MinimumI64(m) => minimum_accepts(Number::Signed(m.limit), instance),
        Validator::MinimumF64(m) => minimum_accepts(Number::Float { mantissa: m.mantissa, exponent: m.exponent }, instance),
        Validator::MinLength(l) => match instance {
            Json::String(s) => !((s.as_str().unicode_len() as u64) < *l),
            _ => true,
        },
        Validator::MinProperties(l) => match instance {
            Json::Object(es) => {
                proof {
                    lemma_object_view(instance);
                }
                !((es.len() as u64) < *l)
            },
            _ => true,
        },
        _ => true,
    }
}

/// Whether `minimum` with `limit` accepts the instance.
fn minimum_accepts(limit: Number, instance: &Json) -> (r: bool)
    ensures
        r == (leaf_errors(Node::Minimum(limit), instance@).len() == 0),
{
    match instance {
        Json::Number(n) => {
            proof {
                lemma_ge_classified(*n, limit);
            }
            num_ge(n.classify(), limit)
        },
        _ => true,
    }
}

impl JSONSchema {
    /// Whether one validator accepts the instance, following at most `fuel` references in a chain.
    fn node_accepts(&self, v: &Validator, instance: &Json, fuel: u64) -> (r: bool)
        ensures
            r == node_valid(self.env(), v@, instance@, fuel as nat),
        decreases fuel, v@, 1nat, 0nat,
    {
        match v {
            Validator::Ref(url) => {
                if fuel == 0 {
                    return false;
                }
                match self.resolver.resolve_fragment(&self.schema, url.as_str()) {
                    Err(e) => false,
                    Ok((scope, target)) => {
                        let ctx = CompilationContext::new(scope, self.draft);
                        match compile_validators(target, &ctx) {
                            Err(e) => false,
                            Ok(vs) => self.list_accepts(&vs, instance, fuel - 1),
                        }
                    },
                }
            },
            Validator::Properties(ps) => match instance {
                Json::Object(_) => {
                    proof {
                        lemma_properties_view(v);
                    }
                    let ghost node = v@;
                    let mut k: usize = 0;
                    while k < ps.len()
                        invariant
                            k <= ps@.len(),
                            node == v@,
                            node is Properties,
                            instance@ is Object,
                            node->Properties_0.len() == ps@.len(),
                            forall|i: int| 0 <= i < ps@.len() ==> #[trigger] node->Properties_0[i] == (ps@[i].0@, views(ps@[i].1@)),
                            properties_valid(self.env(), node, instance@, fuel as nat, 0) == properties_valid(self.env(), node, instance@, fuel as nat, k as nat),
                        decreases ps.len() - k,
                    {
                        assert(node->Properties_0[k as int] == (ps@[k as int].0@, views(ps@[k as int].1@)));
                        match instance.get(ps[k].0.as_str()) {
                            Some(value) => {
                                proof {
                                    assert(decreases_to!(node => node->Properties_0));
                                    assert(decreases_to!(node->Properties_0 => node->Properties_0[k as int]));
                                    assert(decreases_to!(node->Properties_0[k as int] => node->Properties_0[k as int].1));
                                }
                                if !self.list_accepts(&ps[k].1, value, fuel) {
                                    return false;
                                }
                            },
                            None => {},
                        }
                        k = k + 1;
                    }
                    true
                },
                _ => true,
            },
            Validator::PropertyNames(ns) => match instance {
                Json::Object(es) => {
                    proof {
                        lemma_property_names_view(v);
                        lemma_object_view(instance);
                    }
                    let ghost node = v@;
                    let mut k: usize = 0;
                    while k < es.len()
                        invariant
                            k <= es@.len(),
                            node == v@,
                            node == Node::PropertyNames(views(ns@)),
                            instance@ is Object,
                            instance@->Object_0.len() == es@.len(),
                            forall|i: int| 0 <= i < es@.len() ==> #[trigger] instance@->Object_0[i] == (es@[i].0@, es@[i].1@),
                            names_valid(self.env(), node, instance@, fuel as nat, 0) == names_valid(self.env(), node, instance@, fuel as nat, k as nat),
                        decreases es.len() - k,
                    {
                        assert(instance@->Object_0[k as int] == (es@[k as int].0@, es@[k as int].1@));
                        let name = Json::String(es[k].0.clone());
                        proof {
                            assert(decreases_to!(node => node->PropertyNames_0));
                        }
                        if !self.list_accepts(ns, &name, fuel) {
                            return false;
                        }
                        k = k + 1;
                    }
                    true
                },
                _ => true,
            },
            _ => leaf_accepts(v, instance),
        }
    }

    /// Whether every validator of a list accepts the instance; stops at the first that does not.
    fn list_accepts(&self, vs: &Vec<Validator>, instance: &Json, fuel: u64) -> (r: bool)
        ensures
            r == list_valid(self.env(), views(vs@), instance@, fuel as nat, 0),
        decreases fuel, views(vs@), 0nat, 0nat,
    {
        let ghost ns = views(vs@);
        let mut i: usize = 0;
        while i < vs.len()
            invariant
                i <= vs@.len(),
                ns == views(vs@),
                list_valid(self.env(), ns, instance@, fuel as nat, 0) == list_valid(self.env(), ns, instance@, fuel as nat, i as nat),
            decreases vs.len() - i,
        {
            proof {
                assert(decreases_to!(ns => ns[i as int]));
            }
            if !self.node_accepts(&vs[i], instance, fuel) {
                return false;
            }
            i = i + 1;
        }
        true
    }

    /// Compiles `schema` under `draft`, or under the draft it names, or Draft 7.
    pub fn compile(schema: Json, draft: Option<Draft>) -> (r: Result<JSONSchema, CompilationError>)
        ensures
            match compile_result(schema@, draft) {
                Ok(_) => r matches Ok(c) && compiled_from(c, schema@, draft),
                Err(e) => r matches Err(x) && x == e,
            },
    {
        let draft = match draft {
            Some(d) => d,
            None => match draft_from_schema(&schema) {
                Some(d) => d,
                None => Draft::Draft7,
            },
        };
        let scope = match root_scope_of(draft, &schema) {
            Ok(s) => s,
            Err(e) => return Err(e),
        };
        let mut documents: Vec<(String, Json)> = Vec::new();
        match find_schemas(draft, &schema, scope.as_str(), &mut documents) {
            Err(e) => return Err(e),
            Ok(()) => {},
        }
        assert(document_views(documents@) =~= Seq::<(Seq<char>, JsonModel)>::empty() + document_views(documents@));
        let resolver = Resolver { root_scope: scope.clone(), documents };
        let context = CompilationContext::new(scope, draft);
        match compile_validators(&schema, &context) {
            Err(e) => Err(e),
            Ok(validators) => Ok(JSONSchema { draft, schema, validators, resolver }),
        }
    }

    /// Every error of the instance, in order; `Ok` when there is none.
    pub fn validate(&self, instance: &Json) -> (r: Result<(), Vec<ValidationError>>)
        ensures
            match r {
                Ok(()) => schema_errors(*self, instance@).len() == 0,
                Err(errors) => error_views(errors@) == schema_errors(*self, instance@) && errors@.len() > 0,
            },
    {
        let errors = self.list_check(&self.validators, instance, MAX_REFERENCE_DEPTH);
        if errors.len() == 0 {
            Ok(())
        } else {
            Err(errors)
        }
    }

    /// Whether the instance meets the schema, stopping at the first failed constraint.
    pub fn is_valid(&self, instance: &Json) -> (r: bool)
        ensures
            r == schema_valid(*self, instance@),
    {
        self.list_accepts(&self.validators, instance, MAX_REFERENCE_DEPTH)
    }

    /// Makes a further document known to references, under `url`.
    pub fn add_document(&mut self, url: String, document: Json)
        ensures
            final(self).draft == old(self).draft,
            final(self).schema == old(self).schema,
            final(self).validators == old(self).validators,
            final(self).resolver.root_scope == old(self).resolver.root_scope,
            final(self).resolver.documents@ == old(self).resolver.documents@.push((url, document)),
    {
        self.resolver.add_document(url, document);
    }
}

/// For every compiled schema and instance, the boolean answer holds exactly when
/// the list of errors is empty.
pub proof fn lemma_valid_iff_no_errors(s: JSONSchema, instance: JsonModel)
    ensures
        schema_valid(s, instance) == (schema_errors(s, instance).len() == 0),
{
    lemma_list_consistent(s.env(), views(s.validators@), instance, MAX_REFERENCE_DEPTH as nat, 0);
}

/// The schemas `true` and `{}` accept every instance, with no error.
pub proof fn lemma_true_schema_accepts_all(schema: JsonModel, draft: Option<Draft>, c: JSONSchema, instance: JsonModel)
    requires
        schema == JsonModel::Bool(true) || schema == JsonModel::Object(Seq::empty()),
        compiled_from(c, schema, draft),
    ensures
        schema_valid(c, instance),
        schema_errors(c, instance).len() == 0,
{
    let d = chosen_draft(schema, draft);
    let scope = c.resolver.root_scope@;
    reveal_with_fuel(compile_keywords, 7);
    let ns = views(c.validators@);
    let fuel = MAX_REFERENCE_DEPTH as nat;
    if schema == JsonModel::Bool(true) {
        assert(ns == seq![Node::True]);
        assert(list_valid(c.env(), ns, instance, fuel, 1));
        assert(node_valid(c.env(), ns[0], instance, fuel));
    } else {
        assert(compile_schema(schema, scope, d) == compile_keywords(schema, scope, d, 0));
        assert(ns =~= Seq::<Node>::empty());
    }
    assert(list_valid(c.env(), ns, instance, fuel, 0));
    lemma_valid_iff_no_errors(c, instance);
}

/// The schema `false` accepts no instance.
pub proof fn lemma_false_schema_rejects_all(draft: Option<Draft>, c: JSONSchema, instance: JsonModel)
    requires
        compiled_from(c, JsonModel::Bool(false), draft),
    ensures
        !schema_valid(c, instance),
        schema_errors(c, instance).len() > 0,
{
    let ns = views(c.validators@);
    let fuel = MAX_REFERENCE_DEPTH as nat;
    assert(ns == seq![Node::False]);
    assert(!node_valid(c.env(), ns[0], instance, fuel));
    assert(!list_valid(c.env(), ns, instance, fuel, 0));
    lemma_valid_iff_no_errors(c, instance);
}

/// Compiling one document twice under one draft gives schemas that accept the same instances
/// and report the same errors.
pub proof fn lemma_compile_twice_agrees(
    schema: JsonModel,
    draft: Option<Draft>,
    c1: JSONSchema,
    c2: JSONSchema,
    instance: JsonModel,
)
    requires
        compiled_from(c1, schema, draft),
        compiled_from(c2, schema, draft),
    ensures
        schema_valid(c1, instance) == schema_valid(c2, instance),
        schema_errors(c1, instance) == schema_errors(c2, instance),
{
    assert(c1.env() == c2.env());
}

/// The message of an error of `kind` on `instance`.
pub open spec fn error_message(kind: ValidationErrorKind, instance: JsonModel) -> Seq<char> {
    let text = json_text(instance);
    match kind {
        ValidationErrorKind::FalseSchema => "False schema does not allow "@ + text,
        ValidationErrorKind::Type => "'"@ + text + "' is not of the required type"@,
        ValidationErrorKind::Minimum(l) => text + " is less than the minimum of "@ + number_text(l),
        ValidationErrorKind::MinLength(l) => "'"@ + text + "' is shorter than "@ + decimal(l as nat) + " characters"@,
        ValidationErrorKind::MinProperties(l) => text + " has less than "@ + decimal(l as nat) + " properties"@,
        ValidationErrorKind::InvalidReference(_) => "Unresolvable reference for "@ + text,
        ValidationErrorKind::InvalidReferenceTarget(_) => "Invalid reference target for "@ + text,
        ValidationErrorKind::RecursionLimit => "Reference depth limit reached for "@ + text,
    }
}

impl ValidationError {
    /// The human-readable message of this error.
    pub fn to_string(&self) -> (r: String)
        ensures
            r@ == error_message(self.kind, self.instance@),
    {
        proof {
            reveal_strlit("False schema does not allow ");
            reveal_strlit("'");
            reveal_strlit("' is not of the required type");
            reveal_strlit(" is less than the minimum of ");
            reveal_strlit("' is shorter than ");
            reveal_strlit(" characters");
            reveal_strlit(" has less than ");
            reveal_strlit(" properties");
            reveal_strlit("Unresolvable reference for ");
            reveal_strlit("Invalid reference target for ");
            reveal_strlit("Reference depth limit reached for ");
        }
        let mut out = String::new();
        let ghost text = json_text(self.instance@);
        match self.kind {
            ValidationErrorKind::FalseSchema => {
                push_str(&mut out, "False schema does not allow ");
                push_json(&mut out, &self.instance);
            },
            ValidationErrorKind::Type => {
                push_str(&mut out, "'");
                push_json(&mut out, &self.instance);
                push_str(&mut out, "' is not of the required type");
            },
            ValidationErrorKind::Minimum(l) => {
                push_json(&mut out, &self.instance);
                push_str(&mut out, " is less than the minimum of ");
                push_number(&mut out, l);
            },
            ValidationErrorKind::MinLength(l) => {
                push_str(&mut out, "'");
                push_json(&mut out, &self.instance);
                push_str(&mut out, "' is shorter than ");
                push_decimal(&mut out, l);
                push_str(&mut out, " characters");
            },
            ValidationErrorKind::MinProperties(l) => {
                push_json(&mut out, &self.instance);
                push_str(&mut out, " has less than ");
                push_decimal(&mut out, l);
                push_str(&mut out, " properties");
            },
            ValidationErrorKind::InvalidReference(_) => {
                push_str(&mut out, "Unresolvable reference for ");
                push_json(&mut out, &self.instance);
            },
            ValidationErrorKind::InvalidReferenceTarget(_) => {
                push_str(&mut out, "Invalid reference target for ");
                push_json(&mut out, &self.instance);
            },
            ValidationErrorKind::RecursionLimit => {
                push_str(&mut out, "Reference depth limit reached for ");
                push_json(&mut out, &self.instance);
            },
        }
        assert(out@ =~= error_message(self.kind, self.instance@));
        out
    }
}

} // verus!
