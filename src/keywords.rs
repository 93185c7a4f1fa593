//! Validator nodes, the keyword registry and the compiler from schemas to nodes.
use vstd::prelude::*;
use crate::json::{find_key, member_of, str_eq, Json, JsonModel, Number, lemma_object_view, lemma_array_view};
use crate::number::as_u64_spec;
use crate::minimum::{MinimumF64Validator, MinimumI64Validator, MinimumU64Validator};
use crate::scope::{pushed_scope, url_join, CompilationContext, CompilationError, Draft};

verus! {

/// The primitive types that the `type` keyword names.
#[derive(Clone, Copy, Debug, PartialEq, Eq, Structural)]
pub enum PrimitiveType {
    Array,
    Boolean,
    Integer,
    Null,
    Number,
    Object,
    String,
}

/// One compiled keyword.
#[derive(Debug)]
pub enum Validator {
    /// The schema `true`.
    True,
    /// The schema `false`.
    False,
    /// `$ref`, holding the absolute URL of its target.
    Ref(String),
    Type(Vec<PrimitiveType>),
    MinimumU64(MinimumU64Validator),
    MinimumI64(MinimumI64Validator),
    MinimumF64(MinimumF64Validator),
    MinLength(u64),
    MinProperties(u64),
    /// Each named property with the validators of its subschema.
    Properties(Vec<(String, Vec<Validator>)>),
    PropertyNames(Vec<Validator>),
}

/// The meaning of a compiled keyword.
pub enum Node {
    True,
    False,
    Ref(Seq<char>),
    Type(Seq<PrimitiveType>),
    Minimum(Number),
    MinLength(u64),
    MinProperties(u64),
    Properties(Seq<(Seq<char>, Seq<Node>)>),
    PropertyNames(Seq<Node>),
}

impl View for Validator {
    type V = Node;

    open spec fn view(&self) -> Node
        decreases self,
    {
        match self {
            Validator::True => Node::True,
            Validator::False => Node::False,
            Validator::Ref(u) => Node::Ref(u@),
            Validator::Type(ts) => Node::Type(ts@),
            Validator::MinimumU64(v) => Node::Minimum(Number::Unsigned(v.limit)),
            Validator::MinimumI64(v) => Node::Minimum(Number::Signed(v.limit)),
            Validator::MinimumF64(v) => Node::Minimum(Number::Float { mantissa: v.mantissa, exponent: v.exponent }),
            Validator::MinLength(l) => Node::MinLength(*l),
            Validator::MinProperties(l) => Node::MinProperties(*l),
            Validator::Properties(ps) => Node::Properties(
                Seq::new(
                    ps@.len(),
                    |i: int|
                        if 0 <= i < ps@.len() {
                            (
                                ps@[i].0@,
                                Seq::new(
                                    ps@[i].1@.len(),
                                    |j: int|
                                        if 0 <= j < ps@[i].1@.len() {
                                            ps@[i].1@[j].view()
                                        } else {
                                            Node::True
                                        },
                                ),
                            )
                        } else {
                            (Seq::empty(), Seq::empty())
                        },
                ),
            ),
            Validator::PropertyNames(vs) => Node::PropertyNames(
                Seq::new(
                    vs@.len(),
                    |j: int|
                        if 0 <= j < vs@.len() {
                            vs@[j].view()
                        } else {
                            Node::True
                        },
                ),
            ),
        }
    }
}

/// The meanings of a list of compiled keywords.
pub open spec fn views(vs: Seq<Validator>) -> Seq<Node> {
    Seq::new(vs.len(), |i: int| vs[i]@)
}

pub proof fn lemma_properties_view(v: &Validator)
    requires
        v is Properties,
    ensures
        v@ is Properties,
        v@->Properties_0.len() == v->Properties_0@.len(),
        forall|i: int|
            0 <= i < v->Properties_0@.len() ==> #[trigger] v@->Properties_0[i] == (
                v->Properties_0@[i].0@,
                views(v->Properties_0@[i].1@),
            ),
{
    reveal_with_fuel(<Validator as View>::view, 2);
    assert forall|i: int| 0 <= i < v->Properties_0@.len() implies #[trigger] v@->Properties_0[i] == (
        v->Properties_0@[i].0@,
        views(v->Properties_0@[i].1@),
    ) by {
        assert(v@->Properties_0[i].1 =~= views(v->Properties_0@[i].1@));
    }
}

pub proof fn lemma_property_names_view(v: &Validator)
    requires
        v is PropertyNames,
    ensures
        v@ is PropertyNames,
        v@->PropertyNames_0 == views(v->PropertyNames_0@),
{
    reveal_with_fuel(<Validator as View>::view, 2);
    assert(v@->PropertyNames_0 =~= views(v->PropertyNames_0@));
}

/// The number of keywords in the registry.
pub const KEYWORD_COUNT: usize = 6;

/// The registry's keywords, in the order they are compiled and evaluated.
pub open spec fn keyword_name(k: nat) -> Seq<char> {
    if k == 0 {
        "minLength"@
    } else if k == 1 {
        "minProperties"@
    } else if k == 2 {
        "minimum"@
    } else if k == 3 {
        "properties"@
    } else if k == 4 {
        "propertyNames"@
    } else {
        "type"@
    }
}

/// Whether keyword `k` of the registry is known to `draft`.
pub open spec fn keyword_in_draft(draft: Draft, k: nat) -> bool {
    !(k == 4 && draft == Draft::Draft4)
}

/// The primitive type a name stands for.
pub open spec fn type_of_name(name: Seq<char>) -> Option<PrimitiveType> {
    if name == "array"@ {
        Some(PrimitiveType::Array)
    } else if name == "boolean"@ {
        Some(PrimitiveType::Boolean)
    } else if name == "integer"@ {
        Some(PrimitiveType::Integer)
    } else if name == "null"@ {
        Some(PrimitiveType::Null)
    } else if name == "number"@ {
        Some(PrimitiveType::Number)
    } else if name == "object"@ {
        Some(PrimitiveType::Object)
    } else if name == "string"@ {
        Some(PrimitiveType::String)
    } else {
        None
    }
}

/// The types that the first `n` items of a `type` array name.
pub open spec fn types_of(items: Seq<JsonModel>, n: nat) -> Option<Seq<PrimitiveType>>
    decreases n,
{
    if n == 0 {
        Some(Seq::empty())
    } else {
        match types_of(items, (n - 1) as nat) {
            Some(ts) => match items[n - 1] {
                JsonModel::String(name) => match type_of_name(name) {
                    Some(t) => Some(ts.push(t)),
                    None => None,
                },
                _ => None,
            },
            None => None,
        }
    }
}

/// The types that a `type` keyword's value names.
pub open spec fn type_keyword(value: JsonModel) -> Option<Seq<PrimitiveType>> {
    match value {
        JsonModel::String(name) => match type_of_name(name) {
            Some(t) => Some(seq![t]),
            None => None,
        },
        JsonModel::Array(items) => types_of(items, items.len()),
        _ => None,
    }
}

/// A limit that must be a non-negative integer.
pub open spec fn count_limit(value: JsonModel) -> Option<u64> {
    match value {
        JsonModel::Number(n) => as_u64_spec(n),
        _ => None,
    }
}

/// Puts `head` in front of a successful result.
pub open spec fn prepend<T>(head: Seq<T>, r: Result<Seq<T>, CompilationError>) -> Result<Seq<T>, CompilationError> {
    match r {
        Ok(rest) => Ok(head + rest),
        Err(e) => Err(e),
    }
}

/// The validators that `schema` compiles to when `scope` is the base URI around it.
pub open spec fn compile_schema(schema: JsonModel, scope: Seq<char>, draft: Draft) -> Result<Seq<Node>, CompilationError>
    decreases schema, 2nat, 0nat,
{
    match pushed_scope(scope, draft, schema) {
        Err(e) => Err(e),
        Ok(s) => match schema {
            JsonModel::Bool(b) => Ok(seq![if b { Node::True } else { Node::False }]),
            JsonModel::Object(entries) => {
                let i = find_key(entries, "$ref"@);
                if i < entries.len() {
                    match entries[i as int].1 {
                        JsonModel::String(r) => match url_join(s, r) {
                            Some(u) => Ok(seq![Node::Ref(u)]),
                            None => Err(CompilationError::ScopeError),
                        },
                        _ => Err(CompilationError::SchemaError),
                    }
                } else {
                    compile_keywords(schema, s, draft, 0)
                }
            },
            _ => Err(CompilationError::SchemaError),
        },
    }
}

/// The validators of registry keywords `k..` present in the object `schema`, in registry order.
pub open spec fn compile_keywords(schema: JsonModel, scope: Seq<char>, draft: Draft, k: nat) -> Result<Seq<Node>, CompilationError>
    decreases schema, 1nat, KEYWORD_COUNT - k,
{
    if k >= KEYWORD_COUNT {
        Ok(Seq::empty())
    } else {
        match compile_keyword(schema, scope, draft, k) {
            None => compile_keywords(schema, scope, draft, k + 1),
            Some(Err(e)) => Err(e),
            Some(Ok(n)) => prepend(seq![n], compile_keywords(schema, scope, draft, k + 1)),
        }
    }
}

/// Registry keyword `k` compiled from the object `schema`; `None` where it is absent or unknown to the draft.
pub open spec fn compile_keyword(schema: JsonModel, scope: Seq<char>, draft: Draft, k: nat) -> Option<Result<Node, CompilationError>>
    decreases schema, 1nat, 0nat,
{
    match schema {
        JsonModel::Object(entries) => {
            let i = find_key(entries, keyword_name(k));
            if i >= entries.len() || !keyword_in_draft(draft, k) {
                None
            } else {
                let value = entries[i as int].1;
                Some(
                    if k == 0 {
                        match count_limit(value) {
                            Some(l) => Ok(Node::MinLength(l)),
                            None => Err(CompilationError::SchemaError),
                        }
                    } else if k == 1 {
                        match count_limit(value) {
                            Some(l) => Ok(Node::MinProperties(l)),
                            None => Err(CompilationError::SchemaError),
                        }
                    } else if k == 2 {
                        crate::minimum::minimum_keyword(value)
                    } else if k == 3 {
                        match compiled_properties(value, scope, draft, 0) {
                            Ok(ps) => Ok(Node::Properties(ps)),
                            Err(e) => Err(e),
                        }
                    } else if k == 4 {
                        match compile_schema(value, scope, draft) {
                            Ok(ns) => Ok(Node::PropertyNames(ns)),
                            Err(e) => Err(e),
                        }
                    } else {
                        match type_keyword(value) {
                            Some(ts) => Ok(Node::Type(ts)),
                            None => Err(CompilationError::SchemaError),
                        }
                    },
                )
            }
        },
        _ => None,
    }
}

/// The members `j..` of a `properties` value, each with its subschema compiled.
pub open spec fn compiled_properties(value: JsonModel, scope: Seq<char>, draft: Draft, j: nat) -> Result<Seq<(Seq<char>, Seq<Node>)>, CompilationError>
    decreases value, 1nat, (match value { JsonModel::Object(e) => e.len(), _ => 0 }) - j,
{
    match value {
        JsonModel::Object(entries) => {
            if j >= entries.len() {
                Ok(Seq::empty())
            } else {
                match compile_schema(entries[j as int].1, scope, draft) {
                    Err(e) => Err(e),
                    Ok(ns) => prepend(seq![(entries[j as int].0, ns)], compiled_properties(value, scope, draft, j + 1)),
                }
            }
        },
        _ => Err(CompilationError::SchemaError),
    }
}


/// How an executable compilation result matches its meaning.
pub open spec fn compiled_as(r: Result<Vec<Validator>, CompilationError>, s: Result<Seq<Node>, CompilationError>) -> bool {
    match s {
        Ok(ns) => r matches Ok(vs) && views(vs@) == ns,
        Err(e) => r matches Err(x) && x == e,
    }
}

/// The meanings of compiled `properties` members.
pub open spec fn property_views(ps: Seq<(String, Vec<Validator>)>) -> Seq<(Seq<char>, Seq<Node>)> {
    Seq::new(ps.len(), |i: int| (ps[i].0@, views(ps[i].1@)))
}

proof fn lemma_member_decreases(schema: JsonModel, key: Seq<char>)
    requires
        member_of(schema, key) is Some,
    ensures
        decreases_to!(schema => member_of(schema, key)->Some_0),
{
    let entries = schema->Object_0;
    let i = find_key(entries, key);
    assert(decreases_to!(schema => entries));
    assert(decreases_to!(entries => entries[i as int]));
    assert(decreases_to!(entries[i as int] => entries[i as int].1));
}

/// The name of registry keyword `k`.
fn keyword_str(k: usize) -> (r: &'static str)
    requires
        k < KEYWORD_COUNT,
    ensures
        r@ == keyword_name(k as nat),
{
    proof {
        reveal_strlit("minLength");
        reveal_strlit("minProperties");
        reveal_strlit("minimum");
        reveal_strlit("properties");
        reveal_strlit("propertyNames");
        reveal_strlit("type");
    }
    if k == 0 {
        "minLength"
    } else if k == 1 {
        "minProperties"
    } else if k == 2 {
        "minimum"
    } else if k == 3 {
        "properties"
    } else if k == 4 {
        "propertyNames"
    } else {
        "type"
    }
}

/// The primitive type a name stands for.
pub fn type_from_name(name: &str) -> (r: Option<PrimitiveType>)
    ensures
        r == type_of_name(name@),
{
    proof {
        reveal_strlit("array");
        reveal_strlit("boolean");
        reveal_strlit("integer");
        reveal_strlit("null");
        reveal_strlit("number");
        reveal_strlit("object");
        reveal_strlit("string");
    }
    if str_eq(name, "array") {
        Some(PrimitiveType::Array)
    } else if str_eq(name, "boolean") {
        Some(PrimitiveType::Boolean)
    } else if str_eq(name, "integer") {
        Some(PrimitiveType::Integer)
    } else if str_eq(name, "null") {
        Some(PrimitiveType::Null)
    } else if str_eq(name, "number") {
        Some(PrimitiveType::Number)
    } else if str_eq(name, "object") {
        Some(PrimitiveType::Object)
    } else if str_eq(name, "string") {
        Some(PrimitiveType::String)
    } else {
        None
    }
}

/// The types that a `type` keyword's value names.
fn compile_type(value: &Json) -> (r: Option<Vec<PrimitiveType>>)
    ensures
        match type_keyword(value@) {
            Some(ts) => r matches Some(v) && v@ == ts,
            None => r is None,
        },
{
    match value {
        Json::String(name) => match type_from_name(name.as_str()) {
            Some(t) => {
                let v = vec![t];
                assert(v@ =~= seq![t]);
                Some(v)
            },
            None => None,
        },
        Json::Array(items) => {
            proof {
                lemma_array_view(value);
            }
            let ghost model = value@->Array_0;
            let mut out: Vec<PrimitiveType> = Vec::new();
            let mut i: usize = 0;
            while i < items.len()
                invariant
                    i <= items.len(),
                    model.len() == items@.len(),
                    value@ == JsonModel::Array(model),
                    forall|j: int| 0 <= j < items@.len() ==> #[trigger] model[j] == items@[j]@,
                    types_of(model, i as nat) == Some(out@),
                decreases items.len() - i,
            {
                assert(model[i as int] == items@[i as int]@);
                match &items[i] {
                    Json::String(name) => match type_from_name(name.as_str()) {
                        Some(t) => out.push(t),
                        None => {
                            assert(types_of(model, (i + 1) as nat) is None);
                            proof {
                                lemma_types_of_none(model, (i + 1) as nat, model.len());
                            }
                            return None;
                        },
                    },
                    _ => {
                        assert(types_of(model, (i + 1) as nat) is None);
                        proof {
                            lemma_types_of_none(model, (i + 1) as nat, model.len());
                        }
                        return None;
                    },
                }
                i = i + 1;
            }
            Some(out)
        },
        _ => None,
    }
}

proof fn lemma_types_of_none(items: Seq<JsonModel>, n: nat, m: nat)
    requires
        n <= m,
        types_of(items, n) is None,
    ensures
        types_of(items, m) is None,
    decreases m - n,
{
    if n < m {
        lemma_types_of_none(items, n + 1, m);
    }
}

/// A limit that must be a non-negative integer.
fn compile_count_limit(value: &Json) -> (r: Option<u64>)
    ensures
        r == count_limit(value@),
{
    match value {
        Json::Number(n) => n.as_u64(),
        _ => None,
    }
}

/// How an executable keyword compilation result matches its meaning.
pub open spec fn keyword_compiled_as(
    r: Option<Result<Validator, CompilationError>>,
    s: Option<Result<Node, CompilationError>>,
) -> bool {
    match s {
        None => r is None,
        Some(Err(e)) => r matches Some(Err(x)) && x == e,
        Some(Ok(n)) => r matches Some(Ok(v)) && v@ == n,
    }
}

/// Compiles registry keyword `k` of `schema`, if present and known to the draft.
fn compile_keyword_at(schema: &Json, context: &CompilationContext, k: usize) -> (r: Option<Result<Validator, CompilationError>>)
    requires
        k < KEYWORD_COUNT,
    ensures
        keyword_compiled_as(r, compile_keyword(schema@, context.scope@, context.draft, k as nat)),
    decreases schema@, 1nat, 0nat,
{
    if k == 4 && matches!(context.draft, Draft::Draft4) {
        return None;
    }
    let name = keyword_str(k);
    let value = match schema.get(name) {
        None => return None,
        Some(value) => value,
    };
    proof {
        lemma_member_decreases(schema@, name@);
    }
    if k == 0 {
        match compile_count_limit(value) {
            Some(l) => Some(Ok(Validator::MinLength(l))),
            None => Some(Err(CompilationError::SchemaError)),
        }
    } else if k == 1 {
        match compile_count_limit(value) {
            Some(l) => Some(Ok(Validator::MinProperties(l))),
            None => Some(Err(CompilationError::SchemaError)),
        }
    } else if k == 2 {
        Some(crate::minimum::compile(value))
    } else if k == 3 {
        match compile_properties(value, context) {
            Ok(ps) => {
                let v = Validator::Properties(ps);
                proof {
                    lemma_properties_view(&v);
                    assert(v@->Properties_0 =~= property_views(v->Properties_0@));
                }
                Some(Ok(v))
            },
            Err(e) => Some(Err(e)),
        }
    } else if k == 4 {
        match compile_validators(value, context) {
            Ok(vs) => {
                let v = Validator::PropertyNames(vs);
                proof {
                    lemma_property_names_view(&v);
                }
                Some(Ok(v))
            },
            Err(e) => Some(Err(e)),
        }
    } else {
        match compile_type(value) {
            Some(ts) => Some(Ok(Validator::Type(ts))),
            None => Some(Err(CompilationError::SchemaError)),
        }
    }
}

/// Compiles each member of a `properties` value, in order.
fn compile_properties(value: &Json, context: &CompilationContext) -> (r: Result<Vec<(String, Vec<Validator>)>, CompilationError>)
    ensures
        match compiled_properties(value@, context.scope@, context.draft, 0) {
            Ok(ps) => r matches Ok(v) && property_views(v@) == ps,
            Err(e) => r matches Err(x) && x == e,
        },
    decreases value@, 1nat, 0nat,
{
    match value {
        Json::Object(entries) => {
            proof {
                lemma_object_view(value);
            }
            let ghost model = value@->Object_0;
            let ghost scope = context.scope@;
            let ghost draft = context.draft;
            let mut out: Vec<(String, Vec<Validator>)> = Vec::new();
            let mut j: usize = 0;
            while j < entries.len()
                invariant
                    j <= entries.len(),
                    out@.len() == j,
                    value@ == JsonModel::Object(model),
                    model.len() == entries@.len(),
                    forall|i: int| 0 <= i < entries@.len() ==> #[trigger] model[i] == (entries@[i].0@, entries@[i].1@),
                    scope == context.scope@,
                    draft == context.draft,
                    compiled_properties(value@, scope, draft, 0) == prepend(
                        property_views(out@),
                        compiled_properties(value@, scope, draft, j as nat),
                    ),
                decreases entries.len() - j,
            {
                assert(model[j as int] == (entries@[j as int].0@, entries@[j as int].1@));
                proof {
                    assert(decreases_to!(value@ => model));
                    assert(decreases_to!(model => model[j as int]));
                    assert(decreases_to!(model[j as int] => model[j as int].1));
                }
                match compile_validators(&entries[j].1, context) {
                    Err(e) => {
                        return Err(e);
                    },
                    Ok(vs) => {
                        let ghost before = out@;
                        let ghost rest = compiled_properties(value@, scope, draft, (j + 1) as nat);
                        out.push((entries[j].0.clone(), vs));
                        proof {
                            assert(property_views(out@) =~= property_views(before) + seq![(model[j as int].0, views(out@[j as int].1@))]);
                            match rest {
                                Ok(ps) => {
                                    assert(property_views(before) + (seq![(model[j as int].0, views(out@[j as int].1@))] + ps)
                                        =~= property_views(out@) + ps);
                                },
                                Err(e) => {},
                            }
                        }
                    },
                }
                j = j + 1;
            }
            assert(property_views(out@) + Seq::<(Seq<char>, Seq<Node>)>::empty() =~= property_views(out@));
            Ok(out)
        },
        _ => Err(CompilationError::SchemaError),
    }
}

/// Compiles a schema into its validators, with `context` as the scope around it.
pub fn compile_validators(schema: &Json, context: &CompilationContext) -> (r: Result<Vec<Validator>, CompilationError>)
    ensures
        compiled_as(r, compile_schema(schema@, context.scope@, context.draft)),
    decreases schema@, 2nat, 0nat,
{
    let ghost old_scope = context.scope@;
    let ctx = match context.push(schema) {
        Ok(c) => c,
        Err(e) => return Err(e),
    };
    match schema {
        Json::Bool(b) => {
            let v = if *b { Validator::True } else { Validator::False };
            let r = vec![v];
            assert(views(r@) =~= seq![v@]);
            Ok(r)
        },
        Json::Object(entries) => {
            proof {
                reveal_strlit("$ref");
            }
            match schema.get("$ref") {
                Some(Json::String(reference)) => match ctx.build_url(reference.as_str()) {
                    Ok(u) => {
                        let v = Validator::Ref(u);
                        let r = vec![v];
                        assert(views(r@) =~= seq![v@]);
                        Ok(r)
                    },
                    Err(e) => Err(e),
                },
                Some(_) => Err(CompilationError::SchemaError),
                None => {
                    let ghost scope = ctx.scope@;
                    let ghost draft = ctx.draft;
                    let mut out: Vec<Validator> = Vec::new();
                    let mut k: usize = 0;
                    assert(compile_schema(schema@, old_scope, draft) == compile_keywords(schema@, scope, draft, 0));
                    while k < KEYWORD_COUNT
                        invariant
                            k <= KEYWORD_COUNT,
                            compile_schema(schema@, old_scope, draft) == compile_keywords(schema@, scope, draft, 0),
                            scope == ctx.scope@,
                            draft == ctx.draft,
                            draft == context.draft,
                            old_scope == context.scope@,
                            compile_keywords(schema@, scope, draft, 0) == prepend(
                                views(out@),
                                compile_keywords(schema@, scope, draft, k as nat),
                            ),
                        decreases KEYWORD_COUNT - k,
                    {
                        match compile_keyword_at(schema, &ctx, k) {
                            None => {},
                            Some(Err(e)) => {
                                assert(compile_keywords(schema@, scope, draft, k as nat) == Err::<Seq<Node>, CompilationError>(e));
                                assert(compile_keywords(schema@, scope, draft, 0) == Err::<Seq<Node>, CompilationError>(e));
                                return Err(e);
                            },
                            Some(Ok(v)) => {
                                let ghost before = out@;
                                let ghost rest = compile_keywords(schema@, scope, draft, (k + 1) as nat);
                                out.push(v);
                                proof {
                                    assert(views(out@) =~= views(before) + seq![v@]);
                                    match rest {
                                        Ok(ns) => {
                                            assert(views(before) + (seq![v@] + ns) =~= views(out@) + ns);
                                        },
                                        Err(e) => {},
                                    }
                                }
                            },
                        }
                        k = k + 1;
                    }
                    assert(views(out@) + Seq::<Node>::empty() =~= views(out@));
                    Ok(out)
                },
            }
        },
        _ => Err(CompilationError::SchemaError),
    }
}

} // verus!
