//! Argument binding: deriving the handler's keyword arguments from the
//! request, in the engine's fixed precedence — path parameters, then
//! resolved dependencies, then the request context and injected types and
//! form fields, then the body, then query parameters. A name once bound is
//! never overwritten by a later stage.

use vstd::prelude::*;
use vstd::utf8::{decode_utf8, valid_utf8};
use crate::jsonio::{json_wf, parse_json_value};
use crate::params::{
    ParamMap, assoc_get, distinct_keys, lemma_assoc_get_at, lemma_assoc_get_none,
    lemma_assoc_get_snoc, lemma_assoc_get_some,
};
use crate::request::{is_json_content, spec_is_json_content, utf8_to_string};
use crate::signature::{HandlerSignature, ParamKind, parse_int, spec_parse_int};
use crate::text::{string_eq, views_of};

verus! {

/// Copy a byte vector (element clones of `u8` are identities).
pub fn clone_bytes(v: &Vec<u8>) -> (r: Vec<u8>)
    ensures
        r@ == v@,
{
    let r = v.clone();
    proof {
        assert forall|i: int| 0 <= i < v@.len() implies r@[i] == v@[i] by {
            assert(vstd::pervasive::cloned::<u8>(v[i], r[i]));
        }
        assert(r@ =~= v@);
    }
    r
}

/// A file field of a multipart form.
pub struct UploadFile {
    pub filename: String,
    pub content_type: String,
    pub data: Vec<u8>,
}

impl View for UploadFile {
    type V = (Seq<char>, Seq<char>, Seq<u8>);

    open spec fn view(&self) -> (Seq<char>, Seq<char>, Seq<u8>) {
        (self.filename@, self.content_type@, self.data@)
    }
}

/// The file fields of a multipart form, by field name.
pub struct FormFiles {
    entries: Vec<(String, UploadFile)>,
}

impl View for FormFiles {
    type V = Seq<(Seq<char>, (Seq<char>, Seq<char>, Seq<u8>))>;

    closed spec fn view(&self) -> Seq<(Seq<char>, (Seq<char>, Seq<char>, Seq<u8>))> {
        self.entries@.map_values(|p: (String, UploadFile)| (p.0@, p.1@))
    }
}

impl FormFiles {
    pub open spec fn wf(&self) -> bool {
        distinct_keys(self@)
    }

    pub fn new() -> (r: FormFiles)
        ensures
            r@ =~= Seq::<(Seq<char>, (Seq<char>, Seq<char>, Seq<u8>))>::empty(),
            r.wf(),
    {
        FormFiles { entries: Vec::new() }
    }

    /// Add a file field; a later field of the same name replaces it.
    pub fn insert(&mut self, name: String, file: UploadFile)
        requires
            old(self).wf(),
        ensures
            final(self).wf(),
            final(self)@ == crate::params::assoc_set(old(self)@, name@, file@),
            assoc_get(final(self)@, name@) == Some(file@),
            forall|q: Seq<char>|
                q != name@ ==> assoc_get(final(self)@, q) == assoc_get(old(self)@, q),
    {
        let n = self.entries.len();
        let mut i: usize = 0;
        while i < n
            invariant
                old(self).wf(),
                self@ == old(self)@,
                n == self.entries@.len(),
                n == self@.len(),
                i <= n,
                forall|j: int| 0 <= j < i ==> self@[j].0 != name@,
            decreases n - i,
        {
            if string_eq(&self.entries[i].0, name.as_str()) {
                let ghost pre = self@;
                let ghost namev = name@;
                let ghost filev = file@;
                proof {
                    crate::params::lemma_assoc_get_at(pre, namev, i as int);
                }
                vstd::pervasive::VecAdditionalExecFns::set(&mut self.entries, i, (name, file));
                proof {
                    assert(self@ =~= pre.update(i as int, (namev, filev)));
                    crate::params::lemma_assoc_set_update(pre, namev, filev, i as int);
                    crate::params::lemma_assoc_get_at(self@, namev, i as int);
                    assert forall|q: Seq<char>| q != namev implies assoc_get(self@, q) == assoc_get(
                        pre,
                        q,
                    ) by {
                        lemma_assoc_get_same_values(pre, self@, q);
                    }
                    assert(distinct_keys(self@)) by {
                        assert forall|a: int, b: int|
                            0 <= a < b < self@.len() implies self@[a].0 != self@[b].0 by {
                            assert(self@[a].0 == pre[a].0 && self@[b].0 == pre[b].0);
                        }
                    }
                }
                return ;
            }
            i += 1;
        }
        let ghost pre = self@;
        let ghost namev = name@;
        let ghost filev = file@;
        self.entries.push((name, file));
        proof {
            assert(self@ =~= pre.push((namev, filev)));
            crate::params::lemma_assoc_set_push(pre, namev, filev);
            assert forall|q: Seq<char>| q != namev implies assoc_get(self@, q) == assoc_get(
                pre,
                q,
            ) by {
                lemma_assoc_get_snoc(pre, (namev, filev), q);
            }
            lemma_assoc_get_snoc(pre, (namev, filev), namev);
            lemma_assoc_get_none(pre, namev);
            assert(distinct_keys(self@)) by {
                assert forall|a: int, b: int|
                    0 <= a < b < self@.len() implies self@[a].0 != self@[b].0 by {
                    if b < pre.len() {
                        assert(self@[a] == pre[a] && self@[b] == pre[b]);
                    } else {
                        assert(self@[a] == pre[a] && self@[b].0 == namev);
                    }
                }
            }
        }
    }

    /// The file field named `name`, if any.
    pub fn get<'a>(&'a self, name: &str) -> (r: Option<&'a UploadFile>)
        ensures
            match r {
                Some(f) => assoc_get(self@, name@) == Some(f@),
                None => assoc_get(self@, name@) is None,
            },
    {
        let n = self.entries.len();
        let mut i: usize = 0;
        while i < n
            invariant
                n == self.entries@.len(),
                n == self@.len(),
                i <= n,
                forall|j: int| 0 <= j < i ==> self@[j].0 != name@,
            decreases n - i,
        {
            if string_eq(&self.entries[i].0, name) {
                proof {
                    lemma_assoc_get_at(self@, name@, i as int);
                }
                return Some(&self.entries[i].1);
            }
            i += 1;
        }
        proof {
            lemma_assoc_get_none(self@, name@);
        }
        None
    }
}

/// Pair sequences with the same keys in the same order look a key up to
/// the same position; if the values there agree, the lookups agree.
proof fn lemma_assoc_get_same_values<V>(s: Seq<(Seq<char>, V)>, t: Seq<(Seq<char>, V)>, q: Seq<char>)
    requires
        s.len() == t.len(),
        forall|j: int| 0 <= j < s.len() ==> s[j].0 == t[j].0,
        forall|j: int| 0 <= j < s.len() && s[j].0 == q ==> s[j].1 == t[j].1,
    ensures
        assoc_get(s, q) == assoc_get(t, q),
    decreases s.len(),
{
    if s.len() > 0 {
        assert(s[0].0 == t[0].0);
        let s1 = s.drop_first();
        let t1 = t.drop_first();
        assert forall|j: int| 0 <= j < s1.len() implies s1[j].0 == t1[j].0 && (s1[j].0 == q
            ==> s1[j].1 == t1[j].1) by {
            assert(s1[j] == s[j + 1] && t1[j] == t[j + 1]);
        }
        lemma_assoc_get_same_values(s1, t1, q);
    }
}

/// A value bound to one handler argument.
pub enum BoundValue {
    /// An integer coerced from text.
    IntVal(i64),
    /// Text passed through unchanged.
    TextVal(String),
    /// The body as a JSON document (raw bytes; the host decodes them).
    JsonVal(Vec<u8>),
    /// A body that was neither JSON nor valid text.
    NullVal,
    /// The request-context object (held by the host).
    RequestVal,
    /// A fresh background-task object (held by the host).
    BackgroundTaskVal,
    /// A multipart file field.
    UploadFileVal(UploadFile),
    /// The body validated against the declared schema (raw bytes).
    ModelVal(Vec<u8>),
    /// The dependency resolver's value at this index of its output.
    DepVal(usize),
}

/// The mathematical shape of a bound value.
pub ghost enum ArgValue {
    IntArg(int),
    TextArg(Seq<char>),
    JsonArg(Seq<u8>),
    NullArg,
    RequestArg,
    TaskArg,
    UploadArg(Seq<char>, Seq<char>, Seq<u8>),
    ModelArg(Seq<u8>),
    DepArg(int),
}

impl View for BoundValue {
    type V = ArgValue;

    open spec fn view(&self) -> ArgValue {
        match self {
            BoundValue::IntVal(v) => ArgValue::IntArg(*v as int),
            BoundValue::TextVal(s) => ArgValue::TextArg(s@),
            BoundValue::JsonVal(b) => ArgValue::JsonArg(b@),
            BoundValue::NullVal => ArgValue::NullArg,
            BoundValue::RequestVal => ArgValue::RequestArg,
            BoundValue::BackgroundTaskVal => ArgValue::TaskArg,
            BoundValue::UploadFileVal(f) => ArgValue::UploadArg(f.filename@, f.content_type@, f.data@),
            BoundValue::ModelVal(b) => ArgValue::ModelArg(b@),
            BoundValue::DepVal(i) => ArgValue::DepArg(*i as int),
        }
    }
}

/// The keyword arguments handed to the handler, by name.
pub struct Kwargs {
    entries: Vec<(String, BoundValue)>,
}

impl View for Kwargs {
    type V = Seq<(Seq<char>, ArgValue)>;

    closed spec fn view(&self) -> Seq<(Seq<char>, ArgValue)> {
        self.entries@.map_values(|p: (String, BoundValue)| (p.0@, p.1@))
    }
}

impl Kwargs {
    pub open spec fn wf(&self) -> bool {
        distinct_keys(self@)
    }

    pub open spec fn spec_get(&self, q: Seq<char>) -> Option<ArgValue> {
        assoc_get(self@, q)
    }

    pub open spec fn spec_contains(&self, q: Seq<char>) -> bool {
        assoc_get(self@, q) is Some
    }

    pub fn new() -> (r: Kwargs)
        ensures
            r@ =~= Seq::<(Seq<char>, ArgValue)>::empty(),
            r.wf(),
            forall|q: Seq<char>| r.spec_get(q) is None,
    {
        let r = Kwargs { entries: Vec::new() };
        proof {
            assert forall|q: Seq<char>| r.spec_get(q) is None by {
                assert(r@.len() == 0);
            }
        }
        r
    }

    pub fn len(&self) -> (r: usize)
        ensures
            r == self@.len(),
    {
        self.entries.len()
    }

    /// The entry at position `i`, for the host to walk.
    pub fn entry_at(&self, i: usize) -> (r: (&String, &BoundValue))
        requires
            i < self@.len(),
        ensures
            (r.0@, r.1@) == self@[i as int],
    {
        (&self.entries[i].0, &self.entries[i].1)
    }

    pub fn contains_key(&self, k: &str) -> (r: bool)
        ensures
            r == self.spec_contains(k@),
    {
        let n = self.entries.len();
        let mut i: usize = 0;
        while i < n
            invariant
                n == self.entries@.len(),
                n == self@.len(),
                i <= n,
                forall|j: int| 0 <= j < i ==> self@[j].0 != k@,
            decreases n - i,
        {
            if string_eq(&self.entries[i].0, k) {
                proof {
                    lemma_assoc_get_some(self@, k@, i as int);
                }
                return true;
            }
            i += 1;
        }
        proof {
            lemma_assoc_get_none(self@, k@);
        }
        false
    }

    /// Bind a fresh name. Binding is only ever additive: the engine never
    /// overwrites a bound argument.
    fn insert_new(&mut self, k: String, v: BoundValue)
        requires
            old(self).wf(),
            !old(self).spec_contains(k@),
        ensures
            final(self).wf(),
            final(self)@ =~= old(self)@.push((k@, v@)),
            final(self).spec_get(k@) == Some(v@),
            forall|q: Seq<char>|
                q != k@ ==> final(self).spec_get(q) == old(self).spec_get(q),
    {
        let ghost pre = self@;
        let ghost kv = k@;
        let ghost vv = v@;
        self.entries.push((k, v));
        proof {
            assert(self@ =~= pre.push((kv, vv)));
            assert forall|j: int| 0 <= j < pre.len() implies pre[j].0 != kv by {
                if pre[j].0 == kv {
                    lemma_assoc_get_some(pre, kv, j);
                }
            }
            assert(distinct_keys(self@)) by {
                assert forall|a: int, b: int|
                    0 <= a < b < self@.len() implies self@[a].0 != self@[b].0 by {
                    if b < pre.len() {
                        assert(self@[a] == pre[a] && self@[b] == pre[b]);
                    } else {
                        assert(self@[a] == pre[a] && self@[b].0 == kv);
                    }
                }
            }
            assert forall|q: Seq<char>| q != kv implies assoc_get(self@, q) == assoc_get(
                pre,
                q,
            ) by {
                lemma_assoc_get_snoc(pre, (kv, vv), q);
            }
            lemma_assoc_get_snoc(pre, (kv, vv), kv);
        }
    }
}

/// The coercion table (the declared kind decides how raw text from the
/// path or query becomes an argument): an integer kind parses the text, a
/// text kind and an undeclared type pass it through, any other kind cannot
/// be built from text.
pub open spec fn spec_coerce(kind: Option<ParamKind>, raw: Seq<char>) -> Option<ArgValue> {
    match kind {
        Some(ParamKind::IntKind) => match spec_parse_int(raw) {
            Some(v) => if i64::MIN <= v <= i64::MAX {
                Some(ArgValue::IntArg(v))
            } else {
                None
            },
            None => None,
        },
        Some(ParamKind::TextKind) => Some(ArgValue::TextArg(raw)),
        None => Some(ArgValue::TextArg(raw)),
        Some(_) => None,
    }
}

/// Coerce raw text to the declared kind.
pub fn coerce_value(kind: Option<ParamKind>, raw: &str) -> (r: Option<BoundValue>)
    ensures
        match r {
            Some(v) => spec_coerce(kind, raw@) == Some(v@),
            None => spec_coerce(kind, raw@) is None,
        },
{
    match kind {
        Some(ParamKind::IntKind) => match parse_int(raw) {
            Some(v) => Some(BoundValue::IntVal(v)),
            None => None,
        },
        Some(ParamKind::TextKind) => Some(BoundValue::TextVal(String::from_str(raw))),
        None => Some(BoundValue::TextVal(String::from_str(raw))),
        Some(_) => None,
    }
}

/// Query coercion falls back to the raw text when the coercion fails.
pub open spec fn spec_coerce_or_text(kind: Option<ParamKind>, raw: Seq<char>) -> ArgValue {
    match spec_coerce(kind, raw) {
        Some(v) => v,
        None => ArgValue::TextArg(raw),
    }
}

/// The position of the first occurrence of `q` among `names`.
pub open spec fn first_index(names: Seq<Seq<char>>, q: Seq<char>) -> Option<int>
    decreases names.len(),
{
    if names.len() == 0 {
        None
    } else if names[0] == q {
        Some(0int)
    } else {
        match first_index(names.drop_first(), q) {
            Some(i) => Some(i + 1),
            None => None,
        }
    }
}

proof fn lemma_first_index_snoc(names: Seq<Seq<char>>, x: Seq<char>, q: Seq<char>)
    ensures
        first_index(names.push(x), q) == if first_index(names, q) is Some {
            first_index(names, q)
        } else if x == q {
            Some(names.len() as int)
        } else {
            None
        },
    decreases names.len(),
{
    let t = names.push(x);
    if names.len() == 0 {
        assert(t[0] == x);
        assert(t.drop_first() =~= Seq::<Seq<char>>::empty());
        reveal_with_fuel(first_index, 2);
    } else {
        assert(t[0] == names[0]);
        lemma_first_index_snoc(names.drop_first(), x, q);
        assert(t.drop_first() =~= names.drop_first().push(x));
    }
}

/// `q` occurs among `names`.
pub open spec fn in_names(names: Seq<Seq<char>>, q: Seq<char>) -> bool {
    exists|i: int| 0 <= i < names.len() && names[i] == q
}

/// A later binding never displaces an earlier one.
pub open spec fn overlay(a: Option<ArgValue>, b: Option<ArgValue>) -> Option<ArgValue> {
    if a is Some {
        a
    } else {
        b
    }
}

/// What the path-parameter stage binds to `q`.
pub open spec fn path_source(
    sig: &HandlerSignature,
    path_params: Seq<(Seq<char>, Seq<char>)>,
    q: Seq<char>,
) -> Option<ArgValue> {
    match assoc_get(path_params, q) {
        Some(raw) => spec_coerce(sig.spec_kind_of(q), raw),
        None => None,
    }
}

/// What the dependency stage binds to `q`: the resolver's first value
/// under that name, and only for handlers that declare dependencies.
pub open spec fn dep_source(
    sig: &HandlerSignature,
    dep_names: Seq<Seq<char>>,
    q: Seq<char>,
) -> Option<ArgValue> {
    if sig.has_depends {
        match first_index(dep_names, q) {
            Some(i) => Some(ArgValue::DepArg(i)),
            None => None,
        }
    } else {
        None
    }
}

/// What the per-parameter stage binds to `q`: the request context for a
/// parameter named `request`, a fresh task for a background-task kind, a
/// matching file field for an upload kind, and a form text field for an
/// undeclared type.
pub open spec fn name_source(
    sig: &HandlerSignature,
    has_ctx: bool,
    form_fields: Seq<(Seq<char>, Seq<char>)>,
    form_files: Seq<(Seq<char>, (Seq<char>, Seq<char>, Seq<u8>))>,
    q: Seq<char>,
) -> Option<ArgValue> {
    if !sig.spec_has_param(q) {
        None
    } else if q == "request"@ {
        if has_ctx {
            Some(ArgValue::RequestArg)
        } else {
            None
        }
    } else {
        match sig.spec_kind_of(q) {
            Some(ParamKind::BackgroundTaskKind) => Some(ArgValue::TaskArg),
            Some(ParamKind::UploadFileKind) => match assoc_get(form_files, q) {
                Some(f) => Some(ArgValue::UploadArg(f.0, f.1, f.2)),
                None => None,
            },
            Some(_) => None,
            None => match assoc_get(form_fields, q) {
                Some(t) => Some(ArgValue::TextArg(t)),
                None => None,
            },
        }
    }
}

/// The handler's body schema, cached at startup: the parameter named
/// `body` declares a model kind.
pub open spec fn spec_has_body_model(sig: &HandlerSignature) -> bool {
    sig.spec_kind_of("body"@) == Some(ParamKind::ModelKind)
}

/// The value the body binds to once it is read: a JSON body becomes the
/// validated model or the JSON document, a non-JSON body its text, and
/// anything else null.
pub open spec fn spec_body_value(sig: &HandlerSignature, ct_json: bool, body: Seq<u8>) -> ArgValue {
    if ct_json && body.len() > 0 {
        if json_wf(body) {
            if spec_has_body_model(sig) {
                ArgValue::ModelArg(body)
            } else {
                ArgValue::JsonArg(body)
            }
        } else {
            ArgValue::NullArg
        }
    } else {
        if valid_utf8(body) {
            ArgValue::TextArg(decode_utf8(body))
        } else {
            ArgValue::NullArg
        }
    }
}

/// What the body stage binds to `q`.
pub open spec fn body_source(
    sig: &HandlerSignature,
    ct_json: bool,
    body: Seq<u8>,
    q: Seq<char>,
) -> Option<ArgValue> {
    if q == "body"@ && sig.spec_has_param("body"@) {
        Some(spec_body_value(sig, ct_json, body))
    } else {
        None
    }
}

/// What the query stage binds to `q`.
pub open spec fn query_source(
    sig: &HandlerSignature,
    query: Seq<(Seq<char>, Seq<char>)>,
    q: Seq<char>,
) -> Option<ArgValue> {
    if sig.spec_has_param(q) {
        match assoc_get(query, q) {
            Some(raw) => Some(spec_coerce_or_text(sig.spec_kind_of(q), raw)),
            None => None,
        }
    } else {
        None
    }
}

/// The whole binding precedence, stage by stage: path parameters, then
/// dependencies, then request/injected/form, then the body, then query
/// parameters. Earlier stages win.
pub open spec fn spec_binding(
    sig: &HandlerSignature,
    path_params: Seq<(Seq<char>, Seq<char>)>,
    dep_names: Seq<Seq<char>>,
    has_ctx: bool,
    form_fields: Seq<(Seq<char>, Seq<char>)>,
    form_files: Seq<(Seq<char>, (Seq<char>, Seq<char>, Seq<u8>))>,
    ct_json: bool,
    body: Seq<u8>,
    query: Seq<(Seq<char>, Seq<char>)>,
    q: Seq<char>,
) -> Option<ArgValue> {
    overlay(
        overlay(
            overlay(
                overlay(
                    path_source(sig, path_params, q),
                    dep_source(sig, dep_names, q),
                ),
                name_source(sig, has_ctx, form_fields, form_files, q),
            ),
            body_source(sig, ct_json, body, q),
        ),
        query_source(sig, query, q),
    )
}

/// The bindings the body stage never reaches: what the stages before it
/// give the name `body`.
pub open spec fn pre_body_binding(
    sig: &HandlerSignature,
    path_params: Seq<(Seq<char>, Seq<char>)>,
    dep_names: Seq<Seq<char>>,
    has_ctx: bool,
    form_fields: Seq<(Seq<char>, Seq<char>)>,
    form_files: Seq<(Seq<char>, (Seq<char>, Seq<char>, Seq<u8>))>,
) -> Option<ArgValue> {
    overlay(
        overlay(
            path_source(sig, path_params, "body"@),
            dep_source(sig, dep_names, "body"@),
        ),
        name_source(sig, has_ctx, form_fields, form_files, "body"@),
    )
}

/// The request is rejected with a validation failure: the handler wants a
/// schema-validated body, the body is a JSON document that nothing earlier
/// bound, and the validator said no.
pub open spec fn spec_validation_fails(
    sig: &HandlerSignature,
    path_params: Seq<(Seq<char>, Seq<char>)>,
    dep_names: Seq<Seq<char>>,
    has_ctx: bool,
    form_fields: Seq<(Seq<char>, Seq<char>)>,
    form_files: Seq<(Seq<char>, (Seq<char>, Seq<char>, Seq<u8>))>,
    ct_json: bool,
    body: Seq<u8>,
    validation: Result<(), String>,
) -> bool {
    &&& sig.spec_has_param("body"@)
    &&& pre_body_binding(sig, path_params, dep_names, has_ctx, form_fields, form_files) is None
    &&& ct_json
    &&& body.len() > 0
    &&& json_wf(body)
    &&& spec_has_body_model(sig)
    &&& validation is Err
}

/// All path parameters coerce to their declared kinds.
pub open spec fn all_path_params_coerce(
    sig: &HandlerSignature,
    path_params: Seq<(Seq<char>, Seq<char>)>,
) -> bool {
    forall|i: int|
        0 <= i < path_params.len() ==> spec_coerce(
            sig.spec_kind_of(#[trigger] path_params[i].0),
            path_params[i].1,
        ) is Some
}

/// How binding ends: the bound arguments (and whether a background task
/// was injected), a schema-validation refusal, or a path parameter the
/// coercion table cannot build.
pub enum BindOutcome {
    Bound(Kwargs, bool),
    ValidationFailed(String),
    CoercionFailed(String),
}

/// Bind the handler's arguments. `dep_names` is what the dependency
/// resolver returned (by name, in order); `validation` is the schema
/// validator's verdict on the decoded body, consulted only when the
/// signature declares a body model and the body is a JSON document;
/// `has_ctx` says whether a request context was built.
pub fn bind_arguments(
    sig: &HandlerSignature,
    path_params: &ParamMap,
    dep_names: &Vec<String>,
    has_ctx: bool,
    form_fields: &ParamMap,
    form_files: &FormFiles,
    headers: &ParamMap,
    body: &Vec<u8>,
    query_params: &ParamMap,
    validation: &Result<(), String>,
) -> (r: BindOutcome)
    requires
        sig.wf(),
        path_params.wf(),
        form_fields.wf(),
        form_files.wf(),
        query_params.wf(),
    ensures
        ({
            let ct_json = spec_is_json_content(headers@);
            let vfails = spec_validation_fails(
                sig,
                path_params@,
                views_of(dep_names@),
                has_ctx,
                form_fields@,
                form_files@,
                ct_json,
                body@,
                *validation,
            );
            match r {
                BindOutcome::Bound(kw, has_task) => {
                    &&& all_path_params_coerce(sig, path_params@)
                    &&& !vfails
                    &&& kw.wf()
                    &&& forall|q: Seq<char>|
                        kw.spec_get(q) == spec_binding(
                            sig,
                            path_params@,
                            views_of(dep_names@),
                            has_ctx,
                            form_fields@,
                            form_files@,
                            ct_json,
                            body@,
                            query_params@,
                            q,
                        )
                    &&& has_task == exists|j: int|
                        0 <= j < kw@.len() && kw@[j].1 == ArgValue::TaskArg
                },
                BindOutcome::ValidationFailed(d) => {
                    &&& all_path_params_coerce(sig, path_params@)
                    &&& vfails
                    &&& (*validation) matches Err(m) && d@ == m@
                },
                BindOutcome::CoercionFailed(_) => !all_path_params_coerce(sig, path_params@),
            }
        }),
{
    let mut kw = Kwargs::new();

    // Stage: path parameters, coerced; a failure aborts the dispatch.
    let n_path = path_params.len();
    let mut i: usize = 0;
    while i < n_path
        invariant
            sig.wf(),
            path_params.wf(),
            n_path == path_params@.len(),
            i <= n_path,
            kw.wf(),
            forall|j: int|
                0 <= j < i ==> spec_coerce(
                    sig.spec_kind_of(#[trigger] path_params@[j].0),
                    path_params@[j].1,
                ) is Some,
            forall|q: Seq<char>|
                kw.spec_get(q) == path_source(sig, path_params@.take(i as int), q),
        decreases n_path - i,
    {
        let (key, value) = path_params.entry_at(i);
        let kind = sig.kind_of(key.as_str());
        let ghost keyv = key@;
        let ghost valuev = value@;
        match coerce_value(kind, value.as_str()) {
            Some(bv) => {
                proof {
                    assert(path_params@[i as int] == (keyv, valuev));
                    assert(assoc_get(path_params@.take(i as int), keyv) is None) by {
                        assert forall|j: int|
                            0 <= j < i implies path_params@.take(i as int)[j].0 != keyv by {
                            assert(path_params@.take(i as int)[j] == path_params@[j]);
                        }
                        lemma_assoc_get_none(path_params@.take(i as int), keyv);
                    }
                }
                proof {
                    assert(kw.spec_get(keyv) is None);
                }
                let key_owned = key.clone();
                kw.insert_new(key_owned, bv);
                proof {
                    assert(path_params@.take(i as int + 1) =~= path_params@.take(i as int).push(
                        (keyv, valuev),
                    ));
                    assert forall|q: Seq<char>|
                        kw.spec_get(q) == path_source(
                            sig,
                            path_params@.take(i as int + 1),
                            q,
                        ) by {
                        lemma_assoc_get_snoc(path_params@.take(i as int), (keyv, valuev), q);
                    }
                }
            }
            None => {
                proof {
                    assert(path_params@[i as int] == (keyv, valuev));
                    assert(!all_path_params_coerce(sig, path_params@)) by {
                        assert(spec_coerce(
                            sig.spec_kind_of(#[trigger] path_params@[i as int].0),
                            path_params@[i as int].1,
                        ) is None);
                    }
                }
                return BindOutcome::CoercionFailed(key.clone());
            }
        }
        i += 1;
    }
    proof {
        assert(path_params@.take(n_path as int) =~= path_params@);
    }

    // Stage: resolved dependencies, for handlers that declare them.
    if sig.has_depends {
        let ghost pre_dep = kw;
        let n_dep = dep_names.len();
        let mut i: usize = 0;
        while i < n_dep
            invariant
                sig.wf(),
                sig.has_depends,
                n_dep == dep_names@.len(),
                i <= n_dep,
                kw.wf(),
                forall|q: Seq<char>|
                    kw.spec_get(q) == overlay(
                        pre_dep.spec_get(q),
                        dep_source(sig, views_of(dep_names@.take(i as int)), q),
                    ),
            decreases n_dep - i,
        {
            let name = &dep_names[i];
            let ghost namev = name@;
            proof {
                assert(views_of(dep_names@.take(i as int + 1)) =~= views_of(
                    dep_names@.take(i as int),
                ).push(namev));
            }
            if !kw.contains_key(name.as_str()) {
                proof {
                    assert(kw.spec_get(namev) is None);
                    assert(overlay(
                        pre_dep.spec_get(namev),
                        dep_source(sig, views_of(dep_names@.take(i as int)), namev),
                    ) is None);
                }
                kw.insert_new(name.clone(), BoundValue::DepVal(i));
                proof {
                    assert(first_index(views_of(dep_names@.take(i as int)), namev) is None) by {
                        if first_index(views_of(dep_names@.take(i as int)), namev) is Some {
                            assert(dep_source(sig, views_of(dep_names@.take(i as int)), namev)
                                is Some);
                        }
                    }
                    assert(first_index(views_of(dep_names@.take(i as int + 1)), namev) == Some(
                        i as int,
                    )) by {
                        lemma_first_index_snoc(views_of(dep_names@.take(i as int)), namev, namev);
                        assert(views_of(dep_names@.take(i as int)).len() == i as int);
                    }
                    assert forall|q: Seq<char>|
                        kw.spec_get(q) == overlay(
                            pre_dep.spec_get(q),
                            dep_source(sig, views_of(dep_names@.take(i as int + 1)), q),
                        ) by {
                        lemma_first_index_snoc(views_of(dep_names@.take(i as int)), namev, q);
                    }
                }
            } else {
                proof {
                    assert forall|q: Seq<char>|
                        kw.spec_get(q) == overlay(
                            pre_dep.spec_get(q),
                            dep_source(sig, views_of(dep_names@.take(i as int + 1)), q),
                        ) by {
                        lemma_first_index_snoc(views_of(dep_names@.take(i as int)), namev, q);
                    }
                }
            }
            i += 1;
        }
        proof {
            assert(dep_names@.take(n_dep as int) =~= dep_names@);
        }
    } else {
        proof {
            assert forall|q: Seq<char>|
                kw.spec_get(q) == overlay(
                    kw.spec_get(q),
                    dep_source(sig, views_of(dep_names@), q),
                ) by {}
        }
    }
    let ghost after_dep = kw;
    proof {
        assert forall|q: Seq<char>|
            after_dep.spec_get(q) == overlay(
                path_source(sig, path_params@, q),
                dep_source(sig, views_of(dep_names@), q),
            ) by {}
    }

    // Stage: the request context, injected types, and form fields, walking
    // the declared parameters in order.
    let n_names = sig.param_names.len();
    let mut i: usize = 0;
    while i < n_names
        invariant
            sig.wf(),
            n_names == sig.param_names@.len(),
            i <= n_names,
            kw.wf(),
            forall|q: Seq<char>|
                kw.spec_get(q) == overlay(
                    after_dep.spec_get(q),
                    if in_names(sig.spec_names().take(i as int), q) {
                        name_source(sig, has_ctx, form_fields@, form_files@, q)
                    } else {
                        None
                    },
                ),
        decreases n_names - i,
    {
        let name = &sig.param_names[i];
        let ghost namev = name@;
        let ghost pre_iter = kw;
        proof {
            assert(sig.spec_names()[i as int] == namev);
            assert(sig.spec_has_param(namev));
        }
        if !kw.contains_key(name.as_str()) {
            if string_eq(name, "request") {
                if has_ctx {
                    kw.insert_new(name.clone(), BoundValue::RequestVal);
                }
            } else {
                match sig.kind_of(name.as_str()) {
                    Some(ParamKind::BackgroundTaskKind) => {
                        kw.insert_new(name.clone(), BoundValue::BackgroundTaskVal);
                    }
                    Some(ParamKind::UploadFileKind) => {
                        match form_files.get(name.as_str()) {
                            Some(f) => {
                                let file = UploadFile {
                                    filename: f.filename.clone(),
                                    content_type: f.content_type.clone(),
                                    data: clone_bytes(&f.data),
                                };
                                kw.insert_new(name.clone(), BoundValue::UploadFileVal(file));
                            }
                            None => {}
                        }
                    }
                    Some(_) => {}
                    None => {
                        match form_fields.get(name.as_str()) {
                            Some(t) => {
                                kw.insert_new(name.clone(), BoundValue::TextVal(t.clone()));
                            }
                            None => {}
                        }
                    }
                }
            }
        }
        proof {
            lemma_in_names_snoc(sig.spec_names(), i as int);
            assert forall|q: Seq<char>|
                kw.spec_get(q) == overlay(
                    after_dep.spec_get(q),
                    if in_names(sig.spec_names().take(i as int + 1), q) {
                        name_source(sig, has_ctx, form_fields@, form_files@, q)
                    } else {
                        None
                    },
                ) by {
                if q == namev {
                    assert(in_names(sig.spec_names().take(i as int + 1), namev)) by {
                        assert(sig.spec_names().take(i as int + 1)[i as int] == namev);
                    }
                } else {
                    assert(kw.spec_get(q) == pre_iter.spec_get(q));
                }
            }
        }
        i += 1;
    }
    let ghost after_names = kw;
    proof {
        assert(sig.spec_names().take(n_names as int) =~= sig.spec_names());
        assert forall|q: Seq<char>|
            after_names.spec_get(q) == overlay(
                after_dep.spec_get(q),
                name_source(sig, has_ctx, form_fields@, form_files@, q),
            ) by {
            if !in_names(sig.spec_names(), q) {
                assert(!sig.spec_has_param(q));
            }
        }
    }

    // Stage: the body, read and bound only when a parameter asks for it.
    let ct_json = is_json_content(headers);
    if sig.needs_body() && !kw.contains_key("body") {
        if ct_json && body.len() > 0 {
            match parse_json_value(body.as_slice()) {
                Ok(_) => {
                    if matches!(sig.kind_of("body"), Some(ParamKind::ModelKind)) {
                        match validation {
                            Ok(_) => {
                                kw.insert_new(
                                    String::from_str("body"),
                                    BoundValue::ModelVal(clone_bytes(body)),
                                );
                            }
                            Err(d) => {
                                return BindOutcome::ValidationFailed(d.clone());
                            }
                        }
                    } else {
                        kw.insert_new(String::from_str("body"), BoundValue::JsonVal(clone_bytes(body)));
                    }
                }
                Err(_) => {
                    kw.insert_new(String::from_str("body"), BoundValue::NullVal);
                }
            }
        } else {
            match utf8_to_string(body) {
                Ok(t) => {
                    kw.insert_new(String::from_str("body"), BoundValue::TextVal(t));
                }
                Err(_) => {
                    kw.insert_new(String::from_str("body"), BoundValue::NullVal);
                }
            }
        }
    }
    let ghost after_body = kw;
    proof {
        assert forall|q: Seq<char>|
            after_body.spec_get(q) == overlay(
                after_names.spec_get(q),
                body_source(sig, spec_is_json_content(headers@), body@, q),
            ) by {}
    }

    // Stage: query parameters, coerced with a fallback to raw text.
    let n_query = query_params.len();
    let mut i: usize = 0;
    while i < n_query
        invariant
            sig.wf(),
            query_params.wf(),
            n_query == query_params@.len(),
            i <= n_query,
            kw.wf(),
            forall|q: Seq<char>|
                kw.spec_get(q) == overlay(
                    after_body.spec_get(q),
                    query_source(sig, query_params@.take(i as int), q),
                ),
        decreases n_query - i,
    {
        let (key, value) = query_params.entry_at(i);
        let ghost keyv = key@;
        let ghost valuev = value@;
        let ghost pre_iter = kw;
        proof {
            assert(query_params@[i as int] == (keyv, valuev));
            assert(query_params@.take(i as int + 1) =~= query_params@.take(i as int).push(
                (keyv, valuev),
            ));
        }
        if sig.has_param(key.as_str()) && !kw.contains_key(key.as_str()) {
            let bv = match coerce_value(sig.kind_of(key.as_str()), value.as_str()) {
                Some(v) => v,
                None => BoundValue::TextVal(String::from_str(value.as_str())),
            };
            kw.insert_new(key.clone(), bv);
        }
        proof {
            assert forall|q: Seq<char>|
                kw.spec_get(q) == overlay(
                    after_body.spec_get(q),
                    query_source(sig, query_params@.take(i as int + 1), q),
                ) by {
                lemma_assoc_get_snoc(query_params@.take(i as int), (keyv, valuev), q);
                if q != keyv {
                    assert(kw.spec_get(q) == pre_iter.spec_get(q));
                }
            }
        }
        i += 1;
    }
    proof {
        assert(query_params@.take(n_query as int) =~= query_params@);
    }

    let has_task = kwargs_has_task(&kw);
    BindOutcome::Bound(kw, has_task)
}

/// The coercion round trip: a parameter declared with the integer kind
/// binds the integer its text denotes (when it fits the machine integer);
/// a parameter with no declared type binds the literal text unchanged.
pub proof fn lemma_coercion_round_trip(raw: Seq<char>)
    ensures
        (spec_parse_int(raw) matches Some(v) && i64::MIN <= v <= i64::MAX) ==> spec_coerce(
            Some(ParamKind::IntKind),
            raw,
        ) == Some(ArgValue::IntArg(spec_parse_int(raw).unwrap())),
        spec_coerce(None, raw) == Some(ArgValue::TextArg(raw)),
{
}

/// The law of binding precedence: for every argument name, the stages are
/// consulted in the fixed order path parameters, dependencies,
/// request/injected/form, body, query parameters, and the first stage that
/// binds the name decides its value — no later stage overwrites it (so a
/// query parameter sharing a name with a path parameter is ignored), and a
/// name no stage binds stays unbound.
pub proof fn lemma_binding_precedence(
    sig: &HandlerSignature,
    path_params: Seq<(Seq<char>, Seq<char>)>,
    dep_names: Seq<Seq<char>>,
    has_ctx: bool,
    form_fields: Seq<(Seq<char>, Seq<char>)>,
    form_files: Seq<(Seq<char>, (Seq<char>, Seq<char>, Seq<u8>))>,
    ct_json: bool,
    body: Seq<u8>,
    query: Seq<(Seq<char>, Seq<char>)>,
    q: Seq<char>,
)
    ensures
        ({
            let b = spec_binding(
                sig,
                path_params,
                dep_names,
                has_ctx,
                form_fields,
                form_files,
                ct_json,
                body,
                query,
                q,
            );
            let s1 = path_source(sig, path_params, q);
            let s2 = dep_source(sig, dep_names, q);
            let s3 = name_source(sig, has_ctx, form_fields, form_files, q);
            let s4 = body_source(sig, ct_json, body, q);
            let s5 = query_source(sig, query, q);
            &&& s1 is Some ==> b == s1
            &&& s1 is None && s2 is Some ==> b == s2
            &&& s1 is None && s2 is None && s3 is Some ==> b == s3
            &&& s1 is None && s2 is None && s3 is None && s4 is Some ==> b == s4
            &&& s1 is None && s2 is None && s3 is None && s4 is None ==> b == s5
        }),
{
}

/// `q` is among the first `i + 1` names exactly when it is among the first
/// `i` or is the name at `i`.
proof fn lemma_in_names_snoc(names: Seq<Seq<char>>, i: int)
    requires
        0 <= i < names.len(),
    ensures
        forall|q: Seq<char>|
            #[trigger] in_names(names.take(i + 1), q) <==> (in_names(names.take(i), q) || names[i]
                == q),
{
    assert forall|q: Seq<char>|
        #[trigger] in_names(names.take(i + 1), q) <==> (in_names(names.take(i), q) || names[i]
            == q) by {
        if in_names(names.take(i + 1), q) {
            let w = choose|w: int| 0 <= w < i + 1 && #[trigger] names.take(i + 1)[w] == q;
            if w < i {
                assert(names.take(i)[w] == q);
            } else {
                assert(names[i] == q);
            }
        }
        if in_names(names.take(i), q) {
            let w = choose|w: int| 0 <= w < i && #[trigger] names.take(i)[w] == q;
            assert(names.take(i + 1)[w] == q);
        }
        if names[i] == q {
            assert(names.take(i + 1)[i] == q);
        }
    }
}

/// Whether a background task was injected among the bound arguments.
fn kwargs_has_task(kw: &Kwargs) -> (r: bool)
    ensures
        r == exists|j: int| 0 <= j < kw@.len() && kw@[j].1 == ArgValue::TaskArg,
{
    let n = kw.len();
    let mut i: usize = 0;
    while i < n
        invariant
            n == kw@.len(),
            i <= n,
            forall|j: int| 0 <= j < i ==> kw@[j].1 != ArgValue::TaskArg,
        decreases n - i,
    {
        let (_, v) = kw.entry_at(i);
        if matches!(v, BoundValue::BackgroundTaskVal) {
            proof {
                assert(kw@[i as int].1 == ArgValue::TaskArg);
            }
            return true;
        }
        i += 1;
    }
    false
}

} // verus!
