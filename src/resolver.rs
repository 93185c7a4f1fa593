//! Resolution of references: the target document and the value a JSON Pointer locates in it.
use vstd::prelude::*;
use vstd::string::*;
use crate::json::{get_member, str_eq, Json, JsonModel, lemma_array_view, lemma_object_view};
use crate::scope::{id_of, id_of_spec, join_url, split_url, url_join, url_split, CompilationError, Draft};

verus! {

/// Relies on `String::push`: appends one character.
#[verifier::external_body]
pub(crate) fn push_char(s: &mut String, c: char)
    ensures
        final(s)@ == old(s)@.push(c),
{
    s.push(c)
}

/// Why a reference could not be resolved.
#[derive(Clone, Copy, Debug, PartialEq, Eq)]
pub enum ResolveError {
    /// The reference is no absolute URL.
    InvalidUrl,
    /// No known document has the reference's URL.
    UnresolvedDocument,
    /// The fragment addresses no value of the document.
    PointerError,
}

/// Index of the end of the pointer token that starts at `i`.
pub open spec fn token_end(p: Seq<char>, i: nat) -> nat
    decreases p.len() - i,
{
    if i >= p.len() {
        p.len()
    } else if p[i as int] == '/' {
        i
    } else {
        token_end(p, i + 1)
    }
}

/// A pointer token with `~1` read as `/` and `~0` as `~`.
pub open spec fn unescape(t: Seq<char>) -> Seq<char>
    decreases t.len(),
{
    if t.len() == 0 {
        t
    } else if t.len() >= 2 && t[0] == '~' && t[1] == '1' {
        seq!['/'] + unescape(t.subrange(2, t.len() as int))
    } else if t.len() >= 2 && t[0] == '~' && t[1] == '0' {
        seq!['~'] + unescape(t.subrange(2, t.len() as int))
    } else {
        seq![t[0]] + unescape(t.subrange(1, t.len() as int))
    }
}

/// The value of the decimal digits `t[..n]`.
pub open spec fn digits_value(t: Seq<char>, n: nat) -> nat
    decreases n,
{
    if n == 0 {
        0
    } else {
        (digits_value(t, (n - 1) as nat) * 10 + (t[n - 1] as nat - '0' as nat)) as nat
    }
}

/// The array index a token names: decimal digits without a leading zero.
pub open spec fn index_of_token(t: Seq<char>) -> Option<nat> {
    if t.len() == 0 || (t[0] == '0' && t.len() > 1) || exists|j: int| 0 <= j < t.len() && !('0' <= #[trigger] t[j] <= '9') {
        None
    } else {
        Some(digits_value(t, t.len()))
    }
}

/// The value one pointer token leads to from `doc`.
pub open spec fn pointer_step(doc: JsonModel, token: Seq<char>) -> Option<JsonModel> {
    match doc {
        JsonModel::Object(entries) => get_member(entries, token),
        JsonModel::Array(items) => match index_of_token(token) {
            Some(n) => if n < items.len() { Some(items[n as int]) } else { None },
            None => None,
        },
        _ => None,
    }
}

/// Follows the tokens of `p` from the one that starts at `i`.
pub open spec fn pointer_walk(doc: JsonModel, p: Seq<char>, i: nat) -> Option<JsonModel>
    decreases p.len() - i,
{
    let e = token_end(p, i);
    match pointer_step(doc, unescape(p.subrange(i as int, e as int))) {
        None => None,
        Some(next) => if e >= p.len() || e < i { Some(next) } else { pointer_walk(next, p, e + 1) },
    }
}

/// The value the JSON Pointer `p` addresses in `doc`.
pub open spec fn pointer(doc: JsonModel, p: Seq<char>) -> Option<JsonModel> {
    if p.len() == 0 {
        Some(doc)
    } else if p[0] != '/' {
        None
    } else {
        pointer_walk(doc, p, 1)
    }
}

/// The URLs and values of stored documents.
pub open spec fn document_views(docs: Seq<(String, Json)>) -> Seq<(Seq<char>, JsonModel)> {
    Seq::new(docs.len(), |i: int| (docs[i].0@, docs[i].1@))
}

/// The first document of `docs`, from `i` on, stored under `url`.
pub open spec fn find_document(docs: Seq<(Seq<char>, JsonModel)>, url: Seq<char>, i: nat) -> Option<JsonModel>
    decreases docs.len() - i,
{
    if i >= docs.len() {
        None
    } else if docs[i as int].0 == url {
        Some(docs[i as int].1)
    } else {
        find_document(docs, url, i + 1)
    }
}

/// Holds the documents that references may point into.
#[derive(Debug)]
pub struct Resolver {
    /// The URL of the root document.
    pub root_scope: String,
    /// Further documents, by URL.
    pub documents: Vec<(String, Json)>,
}

/// Where `url` leads: the URL of its document and the value its fragment addresses there.
pub open spec fn resolve_spec(
    root: JsonModel,
    root_scope: Seq<char>,
    docs: Seq<(Seq<char>, JsonModel)>,
    url: Seq<char>,
) -> Result<(Seq<char>, JsonModel), ResolveError> {
    match url_split(url) {
        None => Err(ResolveError::InvalidUrl),
        Some((resource, fragment)) => {
            let doc = if resource == root_scope { Some(root) } else { find_document(docs, resource, 0) };
            match doc {
                None => Err(ResolveError::UnresolvedDocument),
                Some(d) => match pointer(d, fragment) {
                    None => Err(ResolveError::PointerError),
                    Some(t) => Ok((resource, t)),
                },
            }
        },
    }
}

/// End of the token that starts at `i`.
fn find_token_end(p: &str, i: usize) -> (r: usize)
    requires
        i <= p@.len(),
    ensures
        r == token_end(p@, i as nat),
        i <= r <= p@.len(),
{
    let n = p.unicode_len();
    let mut j = i;
    while j < n && p.get_char(j) != '/'
        invariant
            i <= j <= n,
            n == p@.len(),
            token_end(p@, i as nat) == token_end(p@, j as nat),
        decreases n - j,
    {
        j = j + 1;
    }
    j
}

/// The token `p[i..e]`, unescaped.
fn unescape_token(p: &str, i: usize, e: usize) -> (r: String)
    requires
        i <= e <= p@.len(),
    ensures
        r@ == unescape(p@.subrange(i as int, e as int)),
{
    let mut out = String::new();
    let mut j = i;
    while j < e
        invariant
            i <= j <= e,
            e <= p@.len(),
            unescape(p@.subrange(i as int, e as int)) == out@ + unescape(p@.subrange(j as int, e as int)),
        decreases e - j,
    {
        let ghost t = p@.subrange(j as int, e as int);
        let c = p.get_char(j);
        if c == '~' && j + 1 < e && p.get_char(j + 1) == '1' {
            assert(t.subrange(2, t.len() as int) =~= p@.subrange(j + 2, e as int));
            push_char(&mut out, '/');
            j = j + 2;
        } else if c == '~' && j + 1 < e && p.get_char(j + 1) == '0' {
            assert(t.subrange(2, t.len() as int) =~= p@.subrange(j + 2, e as int));
            push_char(&mut out, '~');
            j = j + 2;
        } else {
            assert(t.subrange(1, t.len() as int) =~= p@.subrange(j + 1, e as int));
            push_char(&mut out, c);
            j = j + 1;
        }
    }
    out
}


proof fn lemma_digits_grow(t: Seq<char>, i: nat)
    requires
        i < t.len(),
        '0' <= t[i as int] <= '9',
    ensures
        digits_value(t, i + 1) >= digits_value(t, i),
        digits_value(t, i + 1) == digits_value(t, i) * 10 + (t[i as int] as nat - '0' as nat),
{
}

/// The array index that the token `t` names, when it is below `len`.
pub fn parse_index(t: &str, len: usize) -> (r: Option<usize>)
    ensures
        match index_of_token(t@) {
            Some(n) => if n < len { r == Some(n as usize) } else { r is None },
            None => r is None,
        },
{
    let n = t.unicode_len();
    if n == 0 {
        return None;
    }
    if t.get_char(0) == '0' && n > 1 {
        return None;
    }
    let mut acc: u128 = 0;
    let mut big = len == 0;
    let mut i: usize = 0;
    while i < n
        invariant
            i <= n,
            n == t@.len(),
            n > 0,
            !(t@[0] == '0' && n > 1),
            forall|j: int| 0 <= j < i ==> '0' <= #[trigger] t@[j] <= '9',
            big ==> digits_value(t@, i as nat) >= len,
            !big ==> acc == digits_value(t@, i as nat) && acc < len,
        decreases n - i,
    {
        let c = t.get_char(i);
        if !('0' <= c && c <= '9') {
            assert(!('0' <= t@[i as int] <= '9'));
            return None;
        }
        proof {
            lemma_digits_grow(t@, i as nat);
        }
        if !big {
            let d = (c as u32 - '0' as u32) as u128;
            acc = acc * 10 + d;
            if acc >= len as u128 {
                big = true;
            }
        }
        i = i + 1;
    }
    assert(!exists|j: int| 0 <= j < t@.len() && !('0' <= #[trigger] t@[j] <= '9'));
    assert(index_of_token(t@) == Some(digits_value(t@, n as nat)));
    if big {
        None
    } else {
        Some(acc as usize)
    }
}

/// The value that the JSON Pointer `p` addresses in `doc`.
pub fn resolve_pointer<'a>(doc: &'a Json, p: &str) -> (r: Option<&'a Json>)
    ensures
        match pointer(doc@, p@) {
            Some(v) => r matches Some(x) && x@ == v,
            None => r is None,
        },
{
    let n = p.unicode_len();
    if n == 0 {
        return Some(doc);
    }
    if p.get_char(0) != '/' {
        return None;
    }
    let mut target: &Json = doc;
    let mut i: usize = 1;
    loop
        invariant
            1 <= i <= n,
            n == p@.len(),
            pointer(doc@, p@) == pointer_walk(target@, p@, i as nat),
        decreases n - i,
    {
        let e = find_token_end(p, i);
        let token = unescape_token(p, i, e);
        let next: Option<&Json> = match target {
            Json::Object(_) => target.get(token.as_str()),
            Json::Array(items) => {
                proof {
                    lemma_array_view(target);
                }
                match parse_index(token.as_str(), items.len()) {
                    Some(k) => Some(&items[k]),
                    None => None,
                }
            },
            _ => None,
        };
        match next {
            None => {
                return None;
            },
            Some(nx) => {
                if e >= n {
                    return Some(nx);
                }
                target = nx;
                i = e + 1;
            },
        }
    }
}

impl Resolver {
    /// Makes `document` known under `url`; an earlier document under the same URL keeps precedence.
    pub fn add_document(&mut self, url: String, document: Json)
        ensures
            final(self).root_scope == old(self).root_scope,
            final(self).documents@ == old(self).documents@.push((url, document)),
    {
        self.documents.push((url, document));
    }

    /// The first document known under `url`.
    pub fn find_document(&self, url: &str) -> (r: Option<&Json>)
        ensures
            match find_document(document_views(self.documents@), url@, 0) {
                Some(d) => r matches Some(x) && x@ == d,
                None => r is None,
            },
    {
        let mut i: usize = 0;
        while i < self.documents.len()
            invariant
                i <= self.documents@.len(),
                find_document(document_views(self.documents@), url@, 0) == find_document(document_views(self.documents@), url@, i as nat),
            decreases self.documents.len() - i,
        {
            if str_eq(self.documents[i].0.as_str(), url) {
                return Some(&self.documents[i].1);
            }
            i = i + 1;
        }
        None
    }

    /// Where the absolute URL `url` leads: the URL of its document and the value its fragment addresses.
    pub fn resolve_fragment<'a>(&'a self, root: &'a Json, url: &str) -> (r: Result<(String, &'a Json), ResolveError>)
        ensures
            match resolve_spec(root@, self.root_scope@, document_views(self.documents@), url@) {
                Ok((scope, target)) => r matches Ok((s, t)) && s@ == scope && t@ == target,
                Err(e) => r matches Err(x) && x == e,
            },
    {
        let (resource, fragment) = match split_url(url) {
            None => return Err(ResolveError::InvalidUrl),
            Some(parts) => parts,
        };
        let doc = if str_eq(resource.as_str(), self.root_scope.as_str()) {
            Some(root)
        } else {
            self.find_document(resource.as_str())
        };
        match doc {
            None => Err(ResolveError::UnresolvedDocument),
            Some(d) => match resolve_pointer(d, fragment.as_str()) {
                None => Err(ResolveError::PointerError),
                Some(t) => Ok((resource, t)),
            },
        }
    }
}

/// Members whose values hold data rather than subschemas.
pub open spec fn is_data_keyword(key: Seq<char>) -> bool {
    key == "enum"@ || key == "const"@
}

/// Every subschema of `j` that declares an identifier, under its absolute URL without
/// fragment, in document order; `base` is the URL in force around `j`.
pub open spec fn collect_ids(draft: Draft, j: JsonModel, base: Seq<char>) -> Result<Seq<(Seq<char>, JsonModel)>, CompilationError>
    decreases j, 1nat, 0nat,
{
    match j {
        JsonModel::Object(es) => match id_of_spec(draft, j) {
            Some(id) => match url_join(base, id) {
                None => Err(CompilationError::ScopeError),
                Some(u) => match url_split(u) {
                    None => Err(CompilationError::ScopeError),
                    Some((resource, _)) => match collect_member_ids(draft, j, resource, 0) {
                        Ok(rest) => Ok(seq![(resource, j)] + rest),
                        Err(e) => Err(e),
                    },
                },
            },
            None => collect_member_ids(draft, j, base, 0),
        },
        JsonModel::Array(items) => collect_item_ids(draft, j, base, 0),
        _ => Ok(Seq::empty()),
    }
}

/// The identified subschemas inside members `i..` of the object `j`.
pub open spec fn collect_member_ids(draft: Draft, j: JsonModel, base: Seq<char>, i: nat) -> Result<Seq<(Seq<char>, JsonModel)>, CompilationError>
    decreases j, 0nat, (match j { JsonModel::Object(es) => es.len(), _ => 0 }) - i,
{
    match j {
        JsonModel::Object(es) => if i >= es.len() {
            Ok(Seq::empty())
        } else if is_data_keyword(es[i as int].0) {
            collect_member_ids(draft, j, base, i + 1)
        } else {
            match collect_ids(draft, es[i as int].1, base) {
                Err(e) => Err(e),
                Ok(here) => match collect_member_ids(draft, j, base, i + 1) {
                    Ok(rest) => Ok(here + rest),
                    Err(e) => Err(e),
                },
            }
        },
        _ => Ok(Seq::empty()),
    }
}

/// The identified subschemas inside items `i..` of the array `j`.
pub open spec fn collect_item_ids(draft: Draft, j: JsonModel, base: Seq<char>, i: nat) -> Result<Seq<(Seq<char>, JsonModel)>, CompilationError>
    decreases j, 0nat, (match j { JsonModel::Array(items) => items.len(), _ => 0 }) - i,
{
    match j {
        JsonModel::Array(items) => if i >= items.len() {
            Ok(Seq::empty())
        } else {
            match collect_ids(draft, items[i as int], base) {
                Err(e) => Err(e),
                Ok(here) => match collect_item_ids(draft, j, base, i + 1) {
                    Ok(rest) => Ok(here + rest),
                    Err(e) => Err(e),
                },
            }
        },
        _ => Ok(Seq::empty()),
    }
}

/// Appends a successful collection to `head`.
pub open spec fn after(head: Seq<(Seq<char>, JsonModel)>, r: Result<Seq<(Seq<char>, JsonModel)>, CompilationError>) -> Result<Seq<(Seq<char>, JsonModel)>, CompilationError> {
    match r {
        Ok(rest) => Ok(head + rest),
        Err(e) => Err(e),
    }
}

/// Appends to `out` every subschema of `j` that declares an identifier, with its URL.
pub fn find_schemas(draft: Draft, j: &Json, base: &str, out: &mut Vec<(String, Json)>) -> (r: Result<(), CompilationError>)
    ensures
        match collect_ids(draft, j@, base@) {
            Ok(found) => r is Ok && document_views(final(out)@) == document_views(old(out)@) + found,
            Err(e) => r matches Err(x) && x == e,
        },
    decreases j@, 1nat, 0nat,
{
    proof {
        reveal_strlit("enum");
        reveal_strlit("const");
    }
    match j {
        Json::Object(es) => {
            proof {
                lemma_object_view(j);
            }
            let ghost m = j@;
            let ghost start = document_views(out@);
            let ghost mut pre: Seq<(Seq<char>, JsonModel)> = Seq::empty();
            let scope: String = match id_of(draft, j) {
                Some(id) => match join_url(base, id.as_str()) {
                    None => return Err(CompilationError::ScopeError),
                    Some(u) => match split_url(u.as_str()) {
                        None => return Err(CompilationError::ScopeError),
                        Some((resource, _)) => {
                            out.push((resource.clone(), j.copy()));
                            proof {
                                pre = seq![(resource@, m)];
                            }
                            assert(document_views(out@) =~= start + pre);
                            assert(collect_ids(draft, m, base@) == after(pre, collect_member_ids(draft, m, resource@, 0)));
                            resource
                        },
                    },
                },
                None => {
                    proof {
                        match collect_member_ids(draft, m, base@, 0) {
                            Ok(x) => {
                                assert(pre + x =~= x);
                            },
                            Err(_) => {},
                        }
                    }
                    assert(document_views(out@) =~= start + pre);
                    base.to_string()
                },
            };
            let ghost head = document_views(out@);
            assert(collect_ids(draft, m, base@) == after(pre, collect_member_ids(draft, m, scope@, 0)));
            let mut i: usize = 0;
            while i < es.len()
                invariant
                    i <= es@.len(),
                    head == start + pre,
                    start == document_views(old(out)@),
                    collect_ids(draft, m, base@) == after(pre, collect_member_ids(draft, m, scope@, 0)),
                    m == j@,
                    m is Object,
                    m->Object_0.len() == es@.len(),
                    forall|k: int| 0 <= k < es@.len() ==> #[trigger] m->Object_0[k] == (es@[k].0@, es@[k].1@),
                    collect_member_ids(draft, m, scope@, 0) == after(
                        document_views(out@).subrange(head.len() as int, document_views(out@).len() as int),
                        collect_member_ids(draft, m, scope@, i as nat),
                    ),
                    document_views(out@).subrange(0, head.len() as int) == head,
                    head.len() <= document_views(out@).len(),
                decreases es.len() - i,
            {
                assert(m->Object_0[i as int] == (es@[i as int].0@, es@[i as int].1@));
                let key = es[i].0.as_str();
                let data = str_eq(key, "enum") || str_eq(key, "const");
                if !data {
                    proof {
                        assert(decreases_to!(m => m->Object_0));
                        assert(decreases_to!(m->Object_0 => m->Object_0[i as int]));
                        assert(decreases_to!(m->Object_0[i as int] => m->Object_0[i as int].1));
                    }
                    let ghost before = document_views(out@);
                    match find_schemas(draft, &es[i].1, scope.as_str(), out) {
                        Err(e) => {
                            assert(collect_member_ids(draft, m, scope@, i as nat) == Err::<Seq<(Seq<char>, JsonModel)>, CompilationError>(e));
                            return Err(e);
                        },
                        Ok(()) => {
                            let ghost now = document_views(out@);
                            assert(now.subrange(0, head.len() as int) =~= head);
                            assert(now.subrange(head.len() as int, now.len() as int) =~= before.subrange(head.len() as int, before.len() as int) + now.subrange(before.len() as int, now.len() as int));
                            let ghost here = now.subrange(before.len() as int, now.len() as int);
                            let ghost tail_before = before.subrange(head.len() as int, before.len() as int);
                            assert(here =~= collect_ids(draft, m->Object_0[i as int].1, scope@)->Ok_0);
                            proof {
                            match collect_member_ids(draft, m, scope@, (i + 1) as nat) {
                                Ok(rest) => {
                                    assert(tail_before + (here + rest) =~= (tail_before + here) + rest);
                                },
                                Err(_) => {},
                            }
                            }
                        },
                    }
                }
                i = i + 1;
            }
            let ghost fin = document_views(out@);
            let ghost tail = fin.subrange(head.len() as int, fin.len() as int);
            assert(tail + Seq::empty() =~= tail);
            assert(fin =~= head + tail);
            assert(fin =~= start + (pre + tail));
            Ok(())
        },
        Json::Array(items) => {
            proof {
                lemma_array_view(j);
            }
            let ghost m = j@;
            let ghost head = document_views(out@);
            let mut i: usize = 0;
            while i < items.len()
                invariant
                    i <= items@.len(),
                    head == document_views(old(out)@),
                    m == j@,
                    m is Array,
                    m->Array_0.len() == items@.len(),
                    forall|k: int| 0 <= k < items@.len() ==> #[trigger] m->Array_0[k] == items@[k]@,
                    collect_item_ids(draft, m, base@, 0) == after(
                        document_views(out@).subrange(head.len() as int, document_views(out@).len() as int),
                        collect_item_ids(draft, m, base@, i as nat),
                    ),
                    document_views(out@).subrange(0, head.len() as int) == head,
                    head.len() <= document_views(out@).len(),
                decreases items.len() - i,
            {
                assert(m->Array_0[i as int] == items@[i as int]@);
                proof {
                    assert(decreases_to!(m => m->Array_0));
                    assert(decreases_to!(m->Array_0 => m->Array_0[i as int]));
                }
                let ghost before = document_views(out@);
                match find_schemas(draft, &items[i], base, out) {
                    Err(e) => {
                        assert(collect_item_ids(draft, m, base@, i as nat) == Err::<Seq<(Seq<char>, JsonModel)>, CompilationError>(e));
                        return Err(e);
                    },
                    Ok(()) => {
                        let ghost now = document_views(out@);
                        assert(now.subrange(0, head.len() as int) =~= head);
                        assert(now.subrange(head.len() as int, now.len() as int) =~= before.subrange(head.len() as int, before.len() as int) + now.subrange(before.len() as int, now.len() as int));
                        let ghost here = now.subrange(before.len() as int, now.len() as int);
                        let ghost tail_before = before.subrange(head.len() as int, before.len() as int);
                        assert(here =~= collect_ids(draft, m->Array_0[i as int], base@)->Ok_0);
                        proof {
                        match collect_item_ids(draft, m, base@, (i + 1) as nat) {
                            Ok(rest) => {
                                assert(tail_before + (here + rest) =~= (tail_before + here) + rest);
                            },
                            Err(_) => {},
                        }
                        }
                    },
                }
                i = i + 1;
            }
            let ghost fin = document_views(out@);
            assert(fin.subrange(head.len() as int, fin.len() as int) + Seq::empty() =~= fin.subrange(head.len() as int, fin.len() as int));
            assert(fin =~= head + fin.subrange(head.len() as int, fin.len() as int));
            Ok(())
        },
        _ => {
            assert(document_views(out@) =~= document_views(out@) + Seq::<(Seq<char>, JsonModel)>::empty());
            Ok(())
        },
    }
}

} // verus!
