use vstd::prelude::*;
use rand::Rng;
use crate::errors::FileIoError;
use crate::http_request::HttpRequest;
use crate::strutil::dec_seq;
use crate::strutil::split_ws;
use crate::strutil::split_whitespace_vec;
use crate::strutil::str_eq;
use crate::strutil::trim_spec;
use crate::strutil::trim_str;
use crate::strutil::u32_to_string;
use crate::strutil::u64_to_string;
use crate::template::resolve_template;
use crate::template::resolves_to;
use crate::template::static_resolve;

verus! {

/// Relies on uuid::Uuid::new_v4 and its Display form: a fresh random
/// version-4 UUID, rendered in the 36-character hyphenated notation.
#[verifier::external_body]
fn new_uuid_string() -> (r: String)
    ensures
        r@.len() == 36,
{
    uuid::Uuid::new_v4().to_string()
}

/// Relies on rand::Rng::gen_range over `0..bound`: a uniformly random
/// integer below `bound` from the thread-local generator.
#[verifier::external_body]
fn random_below(bound: u32) -> (r: u32)
    requires
        bound > 0,
    ensures
        r < bound,
{
    rand::thread_rng().gen_range(0..bound)
}

/// Relies on chrono::Utc::now and DateTime::timestamp: the current Unix
/// epoch time in whole seconds.
#[verifier::external_body]
fn now_unix_seconds() -> (r: i64) {
    chrono::Utc::now().timestamp()
}

/// Relies on chrono::DateTime::to_rfc3339_opts: the current UTC instant
/// in RFC 3339 notation with nanosecond precision and the `Z` offset.
#[verifier::external_body]
fn now_iso_timestamp() -> (r: String) {
    chrono::Utc::now().to_rfc3339_opts(chrono::SecondsFormat::Nanos, true)
}

/// The closed set of dynamic variable names, recognized by their `$`
/// sigil and never stored: each read yields a fresh value.
pub open spec fn is_dynamic_name(s: Seq<char>) -> bool {
    ||| s == "$uuid"@
    ||| s == "$random.uuid"@
    ||| s == "$randomInt"@
    ||| s == "$timestamp"@
    ||| s == "$isoTimestamp"@
}

/// What any single read of a dynamic variable is sure to deliver: the
/// UUID forms are 36 characters, the random integer is the decimal of a
/// value below 1000, the timestamp is the decimal of a non-negative
/// value.
pub open spec fn dynamic_value_ok(name: Seq<char>, v: Seq<char>) -> bool {
    if name == "$uuid"@ || name == "$random.uuid"@ {
        v.len() == 36
    } else if name == "$randomInt"@ {
        exists|n: int| 0 <= n < 1000 && v == dec_seq(n)
    } else if name == "$timestamp"@ {
        exists|n: int| 0 <= n && v == dec_seq(n)
    } else {
        true
    }
}

/// Whether `name` resolves in a store whose entries are `m`: every
/// dynamic name does, a stored key does, and nothing else.
pub open spec fn contains_spec(m: Map<Seq<char>, Seq<char>>, name: Seq<char>) -> bool {
    if name.len() >= 1 && name[0] == '$' {
        is_dynamic_name(name)
    } else {
        m.contains_key(name)
    }
}

/// The map described by an association list, later entries overriding
/// earlier ones.
pub open spec fn entries_map(s: Seq<(String, String)>) -> Map<Seq<char>, Seq<char>>
    decreases s.len(),
{
    if s.len() == 0 {
        Map::empty()
    } else {
        entries_map(s.drop_last()).insert(s.last().0@, s.last().1@)
    }
}

/// Pairwise-distinct keys.
pub open spec fn distinct_keys(s: Seq<(String, String)>) -> bool {
    forall|i: int, j: int| 0 <= i < j < s.len() ==> s[i].0@ != s[j].0@
}

proof fn lemma_entries_map_absent(s: Seq<(String, String)>, k: Seq<char>)
    requires
        forall|i: int| 0 <= i < s.len() ==> s[i].0@ != k,
    ensures
        !entries_map(s).contains_key(k),
    decreases s.len(),
{
    if s.len() > 0 {
        lemma_entries_map_absent(s.drop_last(), k);
    }
}

proof fn lemma_entries_map_lookup(s: Seq<(String, String)>, i: int)
    requires
        distinct_keys(s),
        0 <= i < s.len(),
    ensures
        entries_map(s).contains_key(s[i].0@),
        entries_map(s)[s[i].0@] == s[i].1@,
    decreases s.len(),
{
    if i < s.len() - 1 {
        lemma_entries_map_lookup(s.drop_last(), i);
    }
}

proof fn lemma_entries_map_remove(s: Seq<(String, String)>, i: int)
    requires
        distinct_keys(s),
        0 <= i < s.len(),
    ensures
        entries_map(s.remove(i)) == entries_map(s).remove(s[i].0@),
    decreases s.len(),
{
    if i == s.len() - 1 {
        lemma_entries_map_absent(s.drop_last(), s[i].0@);
        assert(s.remove(i) =~= s.drop_last());
        assert(entries_map(s.drop_last()) =~= entries_map(s).remove(s[i].0@));
    } else {
        lemma_entries_map_remove(s.drop_last(), i);
        assert(s.remove(i).drop_last() =~= s.drop_last().remove(i));
        assert(s.remove(i).last() == s.last());
        assert(entries_map(s.remove(i)) == entries_map(s.drop_last().remove(i)).insert(
            s.last().0@,
            s.last().1@,
        ));
        assert(entries_map(s.remove(i)) =~= entries_map(s).remove(s[i].0@));
    }
}

/// The mutable variable store: a mapping of variable name to string
/// value, with the dynamic names answered on read instead of stored.
#[derive(Clone)]
pub struct VariableStorage {
    storage: Vec<(String, String)>,
}

impl View for VariableStorage {
    type V = Map<Seq<char>, Seq<char>>;

    closed spec fn view(&self) -> Map<Seq<char>, Seq<char>> {
        entries_map(self.storage@)
    }
}

impl VariableStorage {
    /// The store's internal invariant: stored keys are unique.
    pub closed spec fn wf(&self) -> bool {
        distinct_keys(self.storage@)
    }

    /// An empty store.
    pub fn new() -> (r: VariableStorage)
        ensures
            r.wf(),
            r@ == Map::<Seq<char>, Seq<char>>::empty(),
    {
        VariableStorage { storage: Vec::new() }
    }

    /// Index of the entry holding `name`, if any.
    fn find(&self, name: &str) -> (r: Option<usize>)
        requires
            self.wf(),
        ensures
            (match r {
                Some(i) => i < self.storage@.len() && self.storage@[i as int].0@ == name@,
                None => forall|j: int| 0 <= j < self.storage@.len() ==> self.storage@[j].0@
                    != name@,
            }),
    {
        let n = self.storage.len();
        let mut i: usize = 0;
        while i < n
            invariant
                n == self.storage@.len(),
                0 <= i <= n,
                forall|j: int| 0 <= j < i ==> self.storage@[j].0@ != name@,
            decreases n - i,
        {
            if str_eq(self.storage[i].0.as_str(), name) {
                return Some(i);
            }
            i += 1;
        }
        None
    }

    /// Inserts or overwrites; always succeeds.
    pub fn set(&mut self, name: &String, value: &String)
        requires
            old(self).wf(),
        ensures
            final(self).wf(),
            final(self)@ == old(self)@.insert(name@, value@),
    {
        match self.find(name.as_str()) {
            Some(i) => {
                proof {
                    lemma_entries_map_remove(self.storage@, i as int);
                    assert(distinct_keys(self.storage@.remove(i as int)));
                    assert(forall|j: int|
                        0 <= j < self.storage@.remove(i as int).len()
                            ==> (#[trigger] self.storage@.remove(i as int)[j]).0@ != name@);
                }
                self.storage.remove(i);
            },
            None => {
                proof {
                    lemma_entries_map_absent(self.storage@, name@);
                    assert(self@.remove(name@) =~= self@);
                }
            },
        }
        let ghost pre = self.storage@;
        self.storage.push((name.clone(), value.clone()));
        proof {
            assert(self.storage@.drop_last() =~= pre);
            assert(self.storage@.last().0@ == name@);
            assert(final(self)@ =~= old(self)@.insert(name@, value@));
        }
    }

    /// The value a dynamic variable name yields right now, or `None` if
    /// the name is not one of the recognized dynamic names.
    pub fn get_dynamic(&self, name: &str) -> (r: Option<String>)
        ensures
            r is Some <==> is_dynamic_name(name@),
            r matches Some(v) ==> dynamic_value_ok(name@, v@),
    {
        if str_eq(name, "$uuid") || str_eq(name, "$random.uuid") {
            Some(new_uuid_string())
        } else if str_eq(name, "$randomInt") {
            let n = random_below(1000);
            Some(u32_to_string(n))
        } else if str_eq(name, "$timestamp") {
            let t = now_unix_seconds();
            if t >= 0 {
                Some(u64_to_string(t as u64))
            } else {
                proof {
                    reveal_strlit("0");
                    assert("0"@ =~= dec_seq(0));
                }
                Some("0".to_owned())
            }
        } else if str_eq(name, "$isoTimestamp") {
            Some(now_iso_timestamp())
        } else {
            None
        }
    }

    /// A stored value, the empty string for an absent key, and a freshly
    /// computed value for a recognized dynamic name; a lookup never
    /// fails. An unrecognized `$`-name has no value, so the caller rules
    /// it out (`contains` is the test).
    pub fn get(&self, name: &String) -> (r: String)
        requires
            self.wf(),
            name@.len() >= 1 && name@[0] == '$' ==> is_dynamic_name(name@),
        ensures
            (name@.len() >= 1 && name@[0] == '$') ==> dynamic_value_ok(name@, r@),
            !(name@.len() >= 1 && name@[0] == '$') ==> r@ == (if self@.contains_key(name@) {
                self@[name@]
            } else {
                Seq::<char>::empty()
            }),
    {
        let s = name.as_str();
        if s.unicode_len() >= 1 && s.get_char(0) == '$' {
            match self.get_dynamic(s) {
                Some(v) => v,
                None => unreached(),
            }
        } else {
            match self.find(s) {
                Some(i) => {
                    proof {
                        lemma_entries_map_lookup(self.storage@, i as int);
                    }
                    self.storage[i].1.clone()
                },
                None => {
                    proof {
                        lemma_entries_map_absent(self.storage@, name@);
                    }
                    String::new()
                },
            }
        }
    }

    /// Whether `name` would resolve: true for every dynamic name and for
    /// every stored key.
    pub fn contains(&self, name: &str) -> (r: bool)
        requires
            self.wf(),
        ensures
            r == contains_spec(self@, name@),
    {
        if name.unicode_len() >= 1 && name.get_char(0) == '$' {
            self.get_dynamic(name).is_some()
        } else {
            match self.find(name) {
                Some(i) => {
                    proof {
                        lemma_entries_map_lookup(self.storage@, i as int);
                    }
                    true
                },
                None => {
                    proof {
                        lemma_entries_map_absent(self.storage@, name@);
                    }
                    false
                },
            }
        }
    }

    /// Whether the store holds no entry at all.
    pub fn is_empty(&self) -> (r: bool)
        requires
            self.wf(),
        ensures
            r == (self@ == Map::<Seq<char>, Seq<char>>::empty()),
    {
        if self.storage.len() == 0 {
            proof {
                assert(self@ =~= Map::<Seq<char>, Seq<char>>::empty());
            }
            true
        } else {
            proof {
                lemma_entries_map_lookup(self.storage@, self.storage@.len() - 1);
                assert(self@.contains_key(self.storage@.last().0@));
            }
            false
        }
    }

    /// Removes a stored key; a no-op if the key is absent. Dynamic names
    /// are not stored and so cannot be cleared.
    pub fn clear(&mut self, name: &String)
        requires
            old(self).wf(),
        ensures
            final(self).wf(),
            final(self)@ == old(self)@.remove(name@),
    {
        match self.find(name.as_str()) {
            Some(i) => {
                proof {
                    lemma_entries_map_remove(self.storage@, i as int);
                }
                self.storage.remove(i);
            },
            None => {
                proof {
                    lemma_entries_map_absent(self.storage@, name@);
                    assert(self@.remove(name@) =~= self@);
                }
            },
        }
    }

    /// Removes every stored key; dynamic names remain available.
    pub fn clear_all(&mut self)
        ensures
            final(self).wf(),
            final(self)@ == Map::<Seq<char>, Seq<char>>::empty(),
    {
        self.storage.clear();
        proof {
            assert(final(self)@ =~= Map::<Seq<char>, Seq<char>>::empty());
        }
    }
}

/// The plain shape of an environment document: environment names, each
/// with its entries; a `None` value stands for an entry whose value is
/// not a string.
pub type EnvDocView = Seq<(Seq<char>, Seq<(Seq<char>, Option<Seq<char>>)>)>;

pub uninterp spec fn json_value_ok(s: Seq<char>) -> bool;

pub uninterp spec fn env_entries_of(s: Seq<char>) -> EnvDocView;

/// Relies on serde_json::from_str and Value::as_object / as_str: parses
/// the text as JSON and lays the document out as plain pairs — its
/// environments, each with its entries, a non-string value mapped to
/// `None`. Environment and entry names are unique (serde_json's map
/// keeps one value per key), so the order of the pairs carries no
/// meaning. A document that is valid JSON but no object yields no
/// environments.
#[verifier::external_body]
fn parse_env_doc(text: &str) -> (r: Option<Vec<(String, Vec<(String, Option<String>)>)>>)
    ensures
        r is Some <==> json_value_ok(text@),
        r matches Some(v) ==> v.deep_view() == env_entries_of(text@),
{
    let doc: serde_json::Value = match serde_json::from_str(text) {
        Ok(v) => v,
        Err(_) => return None,
    };
    let entries = |env: &serde_json::Value| -> Vec<(String, Option<String>)> {
        env.as_object().into_iter().flatten().map(
            |(k, v)| (k.clone(), v.as_str().map(str::to_string)),
        ).collect()
    };
    Some(doc.as_object().into_iter().flatten().map(
        |(name, env)| (name.clone(), entries(env)),
    ).collect())
}

/// One environment's entries copied into the map in order, later entries
/// overriding earlier ones; non-string values are dropped.
pub open spec fn seed_entries_spec(
    m: Map<Seq<char>, Seq<char>>,
    entries: Seq<(Seq<char>, Option<Seq<char>>)>,
) -> Map<Seq<char>, Seq<char>>
    decreases entries.len(),
{
    if entries.len() == 0 {
        m
    } else {
        let prev = seed_entries_spec(m, entries.drop_last());
        match entries.last().1 {
            Some(v) => prev.insert(entries.last().0, v),
            None => prev,
        }
    }
}

/// A whole document applied to the map: only the environments whose name
/// is the selected one contribute, in document order.
pub open spec fn seed_doc_spec(
    m: Map<Seq<char>, Seq<char>>,
    doc: EnvDocView,
    env: Seq<char>,
) -> Map<Seq<char>, Seq<char>>
    decreases doc.len(),
{
    if doc.len() == 0 {
        m
    } else {
        let prev = seed_doc_spec(m, doc.drop_last(), env);
        if doc.last().0 == env {
            seed_entries_spec(prev, doc.last().1)
        } else {
            prev
        }
    }
}

/// Several documents applied in order, later documents overriding
/// earlier ones.
pub open spec fn seed_all_spec(
    m: Map<Seq<char>, Seq<char>>,
    docs: Seq<Seq<char>>,
    env: Seq<char>,
) -> Map<Seq<char>, Seq<char>>
    decreases docs.len(),
{
    if docs.len() == 0 {
        m
    } else {
        seed_doc_spec(seed_all_spec(m, docs.drop_last(), env), env_entries_of(docs.last()), env)
    }
}

/// A document without the selected environment seeds nothing: the store
/// is left exactly as it was, and that is no error.
pub proof fn lemma_seed_unknown_environment(
    m: Map<Seq<char>, Seq<char>>,
    doc: EnvDocView,
    env: Seq<char>,
)
    requires
        forall|i: int| 0 <= i < doc.len() ==> (#[trigger] doc[i]).0 != env,
    ensures
        seed_doc_spec(m, doc, env) == m,
    decreases doc.len(),
{
    if doc.len() > 0 {
        lemma_seed_unknown_environment(m, doc.drop_last(), env);
    }
}

/// Copies the selected environment's string-valued entries of one parsed
/// document into the store, in document order.
pub fn seed_from_entries(
    storage: &mut VariableStorage,
    doc: &Vec<(String, Vec<(String, Option<String>)>)>,
    environment: &str,
)
    requires
        old(storage).wf(),
    ensures
        final(storage).wf(),
        final(storage)@ == seed_doc_spec(old(storage)@, doc.deep_view(), environment@),
{
    let n = doc.len();
    let mut i: usize = 0;
    while i < n
        invariant
            n == doc@.len(),
            0 <= i <= n,
            storage.wf(),
            storage@ == seed_doc_spec(old(storage)@, doc.deep_view().take(i as int), environment@),
        decreases n - i,
    {
        let ghost pre = storage@;
        let entry = &doc[i];
        if str_eq(entry.0.as_str(), environment) {
            let en = entry.1.len();
            let mut j: usize = 0;
            while j < en
                invariant
                    en == entry.1@.len(),
                    0 <= j <= en,
                    storage.wf(),
                    entry == &doc[i as int],
                    storage@ == seed_entries_spec(pre, entry.1.deep_view().take(j as int)),
                decreases en - j,
            {
                match &entry.1[j] {
                    (k, Some(v)) => {
                        storage.set(k, v);
                    },
                    (_, None) => {},
                }
                proof {
                    let es = entry.1.deep_view();
                    assert(es.take(j + 1).drop_last() =~= es.take(j as int));
                    assert(es.take(j + 1).last() == es[j as int]);
                }
                j += 1;
            }
            proof {
                assert(entry.1.deep_view().take(en as int) =~= entry.1.deep_view());
            }
        }
        proof {
            let dv = doc.deep_view();
            assert(dv.take(i + 1).drop_last() =~= dv.take(i as int));
            assert(dv.take(i + 1).last() == dv[i as int]);
            assert(dv[i as int].0 == entry.0@);
            assert(dv[i as int].1 == entry.1.deep_view());
        }
        i += 1;
    }
    proof {
        assert(doc.deep_view().take(n as int) =~= doc.deep_view());
    }
}

/// Seeds the store from the given environment documents in order: each
/// is parsed as JSON, the selected environment's string entries are
/// copied in, later documents overriding earlier ones. A document that
/// fails to parse is a fatal error naming its position.
pub fn fill_storage_by_environment(
    storage: &mut VariableStorage,
    env_docs: &Vec<String>,
    environment: &str,
) -> (r: Result<(), FileIoError>)
    requires
        old(storage).wf(),
    ensures
        final(storage).wf(),
        (r is Ok <==> forall|i: int|
            0 <= i < env_docs@.len() ==> json_value_ok(#[trigger] env_docs.deep_view()[i])),
        r is Ok ==> final(storage)@ == seed_all_spec(
            old(storage)@,
            env_docs.deep_view(),
            environment@,
        ),
        r matches Err(e) ==> exists|i: int|
            0 <= i < env_docs@.len() && !json_value_ok(#[trigger] env_docs.deep_view()[i]) && e.0@
                == "environment file #"@ + dec_seq(i) && (forall|j: int|
                0 <= j < i ==> json_value_ok(#[trigger] env_docs.deep_view()[j])),
{
    let n = env_docs.len();
    let mut i: usize = 0;
    while i < n
        invariant
            n == env_docs@.len(),
            0 <= i <= n,
            storage.wf(),
            forall|j: int| 0 <= j < i ==> json_value_ok(#[trigger] env_docs.deep_view()[j]),
            storage@ == seed_all_spec(
                old(storage)@,
                env_docs.deep_view().take(i as int),
                environment@,
            ),
        decreases n - i,
    {
        match parse_env_doc(env_docs[i].as_str()) {
            None => {
                let mut msg = "environment file #".to_owned();
                let no = u64_to_string(i as u64);
                msg.append(no.as_str());
                proof {
                    assert(msg@ =~= "environment file #"@ + dec_seq(i as int));
                    assert(!json_value_ok(env_docs.deep_view()[i as int]));
                }
                return Err(FileIoError(msg));
            },
            Some(entries) => {
                seed_from_entries(storage, &entries, environment);
                proof {
                    let dv = env_docs.deep_view();
                    assert(dv.take(i + 1).drop_last() =~= dv.take(i as int));
                    assert(dv.take(i + 1).last() == dv[i as int]);
                }
            },
        }
        i += 1;
    }
    proof {
        assert(env_docs.deep_view().take(n as int) =~= env_docs.deep_view());
    }
    Ok(())
}

/// Substituting the store's variables into a text fragment.
pub trait ReplaceTemplates where Self: View<V = Seq<char>> {
    /// Replaces every `{{name}}` placeholder whose name the store knows;
    /// unknown placeholders are left untouched.
    fn replace_templates(&self, templates: &VariableStorage) -> (r: String)
        requires
            templates.wf(),
        ensures
            resolves_to(self@, templates@, r@),
            static_resolve(self@, templates@) matches Some(o) ==> r@ == o,
    ;
}

impl ReplaceTemplates for str {
    fn replace_templates(&self, templates: &VariableStorage) -> (r: String) {
        resolve_template(self, templates)
    }
}

/// The HTTP methods a request line may name.
#[derive(Debug, Copy, Clone, PartialEq, Eq, Structural)]
pub enum Method {
    Get,
    Post,
    Put,
    Delete,
}

/// Why a request record could not be resolved into a dispatchable
/// request.
#[derive(Debug, Clone)]
pub enum RequestError {
    /// The request line holds no token at all.
    NoUrlGiven,
    /// The request line's first token names no supported method; carries
    /// the token.
    UnknownMethod(String),
    /// Three or more tokens: the method cannot be determined; carries the
    /// whole request line.
    MethodNotDeterminable(String),
    /// The URL, after substitution, does not parse as an absolute URL;
    /// carries the offending URL token.
    InvalidUrl(String),
    /// A header line holds no `:` separator; carries the line.
    MalformedHeader(String),
}

/// The report text of each resolution error.
pub open spec fn request_error_msg(e: &RequestError) -> Seq<char> {
    match e {
        RequestError::NoUrlGiven => "No URL given"@,
        RequestError::UnknownMethod(t) => t@ + " is a unknown http method"@,
        RequestError::MethodNotDeterminable(u) => "Invalid URL, http method couldn't be determined "@
            + u@,
        RequestError::InvalidUrl(t) => "invalid URL '"@ + t@ + "'"@,
        RequestError::MalformedHeader(l) => "malformed header line '"@ + l@ + "'"@,
    }
}

impl RequestError {
    /// The report text for this error.
    pub fn message(&self) -> (r: String)
        ensures
            r@ == request_error_msg(self),
    {
        match self {
            RequestError::NoUrlGiven => "No URL given".to_owned(),
            RequestError::UnknownMethod(t) => {
                let mut r = t.clone();
                r.append(" is a unknown http method");
                r
            },
            RequestError::MethodNotDeterminable(u) => {
                let mut r = "Invalid URL, http method couldn't be determined ".to_owned();
                r.append(u.as_str());
                r
            },
            RequestError::InvalidUrl(t) => {
                let mut r = "invalid URL '".to_owned();
                r.append(t.as_str());
                r.append("'");
                proof {
                    assert(r@ =~= request_error_msg(self));
                }
                r
            },
            RequestError::MalformedHeader(l) => {
                let mut r = "malformed header line '".to_owned();
                r.append(l.as_str());
                r.append("'");
                proof {
                    assert(r@ =~= request_error_msg(self));
                }
                r
            },
        }
    }
}

/// Case-insensitive match of one character against a lowercase ASCII
/// letter.
pub open spec fn char_eq_ci(c: char, lower: char) -> bool {
    c == lower || c as u32 + 32 == lower as u32
}

/// The method named by a request-line token, compared case-insensitively
/// against the supported set.
pub open spec fn method_of_token(tok: Seq<char>) -> Option<Method> {
    if tok.len() == 3 && char_eq_ci(tok[0], 'g') && char_eq_ci(tok[1], 'e') && char_eq_ci(
        tok[2],
        't',
    ) {
        Some(Method::Get)
    } else if tok.len() == 3 && char_eq_ci(tok[0], 'p') && char_eq_ci(tok[1], 'u') && char_eq_ci(
        tok[2],
        't',
    ) {
        Some(Method::Put)
    } else if tok.len() == 4 && char_eq_ci(tok[0], 'p') && char_eq_ci(tok[1], 'o') && char_eq_ci(
        tok[2],
        's',
    ) && char_eq_ci(tok[3], 't') {
        Some(Method::Post)
    } else if tok.len() == 6 && char_eq_ci(tok[0], 'd') && char_eq_ci(tok[1], 'e') && char_eq_ci(
        tok[2],
        'l',
    ) && char_eq_ci(tok[3], 'e') && char_eq_ci(tok[4], 't') && char_eq_ci(tok[5], 'e') {
        Some(Method::Delete)
    } else {
        None
    }
}

fn char_ci(c: char, lo: char, up: char) -> (r: bool)
    requires
        lo as u32 == up as u32 + 32,
    ensures
        r == char_eq_ci(c, lo),
{
    c == lo || c == up
}

/// The method a single token names, if any.
fn token_method(tok: &str) -> (r: Option<Method>)
    ensures
        r == method_of_token(tok@),
{
    let n = tok.unicode_len();
    if n == 3 && char_ci(tok.get_char(0), 'g', 'G') && char_ci(tok.get_char(1), 'e', 'E')
        && char_ci(tok.get_char(2), 't', 'T') {
        Some(Method::Get)
    } else if n == 3 && char_ci(tok.get_char(0), 'p', 'P') && char_ci(tok.get_char(1), 'u', 'U')
        && char_ci(tok.get_char(2), 't', 'T') {
        Some(Method::Put)
    } else if n == 4 && char_ci(tok.get_char(0), 'p', 'P') && char_ci(tok.get_char(1), 'o', 'O')
        && char_ci(tok.get_char(2), 's', 'S') && char_ci(tok.get_char(3), 't', 'T') {
        Some(Method::Post)
    } else if n == 6 && char_ci(tok.get_char(0), 'd', 'D') && char_ci(tok.get_char(1), 'e', 'E')
        && char_ci(tok.get_char(2), 'l', 'L') && char_ci(tok.get_char(3), 'e', 'E') && char_ci(
        tok.get_char(4),
        't',
        'T',
    ) && char_ci(tok.get_char(5), 'e', 'E') {
        Some(Method::Delete)
    } else {
        None
    }
}

pub uninterp spec fn url_parse_ok(s: Seq<char>) -> bool;

/// Relies on url::Url::parse: whether the text parses as an absolute
/// URL.
#[verifier::external_body]
fn is_absolute_url(s: &str) -> (r: bool)
    ensures
        r == url_parse_ok(s@),
{
    url::Url::parse(s).is_ok()
}

/// Index of the first `:` at or after `i` (`s.len()` if there is none).
pub open spec fn colon_index(l: Seq<char>, i: int) -> int
    decreases l.len() - i,
{
    if i < 0 || i >= l.len() {
        l.len() as int
    } else if l[i] == ':' {
        i
    } else {
        colon_index(l, i + 1)
    }
}

/// A header line split once on its first `:`; `None` for a line without
/// one.
pub open spec fn colon_split(l: Seq<char>) -> Option<(Seq<char>, Seq<char>)> {
    let p = colon_index(l, 0);
    if p < l.len() {
        Some((l.subrange(0, p), l.subrange(p + 1, l.len() as int)))
    } else {
        None
    }
}

fn find_colon(s: &str) -> (r: Option<usize>)
    ensures
        (match r {
            Some(p) => colon_index(s@, 0) == p as int && p < s@.len(),
            None => colon_index(s@, 0) == s@.len(),
        }),
{
    let n = s.unicode_len();
    let mut i: usize = 0;
    while i < n
        invariant
            n == s@.len(),
            0 <= i <= n,
            colon_index(s@, 0) == colon_index(s@, i as int),
        decreases n - i,
    {
        if s.get_char(i) == ':' {
            return Some(i);
        }
        i += 1;
    }
    None
}

/// The newline-joined concatenation of the given pieces.
pub open spec fn join_nl(pieces: Seq<Seq<char>>) -> Seq<char>
    decreases pieces.len(),
{
    if pieces.len() == 0 {
        Seq::empty()
    } else if pieces.len() == 1 {
        pieces[0]
    } else {
        join_nl(pieces.drop_last()) + seq!['\n'] + pieces.last()
    }
}

/// The static resolutions of a sequence of fragments; `None` as soon as
/// one fragment holds a known dynamic placeholder.
pub open spec fn static_pieces(lines: Seq<Seq<char>>, m: Map<Seq<char>, Seq<char>>) -> Option<
    Seq<Seq<char>>,
>
    decreases lines.len(),
{
    if lines.len() == 0 {
        Some(Seq::empty())
    } else {
        match static_pieces(lines.drop_last(), m) {
            Some(ps) => match static_resolve(lines.last(), m) {
                Some(p) => Some(ps.push(p)),
                None => None,
            },
            None => None,
        }
    }
}

impl HttpRequest {
    /// The request's display label: its sequence number and its name.
    pub fn name(&self) -> (r: String)
        ensures
            r@ == seq!['#'] + dec_seq(self.request_no as int) + seq![' '] + self.name@,
    {
        proof {
            reveal_strlit("#");
            reveal_strlit(" ");
        }
        let mut r = "#".to_owned();
        let no = u32_to_string(self.request_no);
        r.append(no.as_str());
        r.append(" ");
        r.append(self.name.as_str());
        proof {
            assert(r@ =~= seq!['#'] + dec_seq(self.request_no as int) + seq![' '] + self.name@);
        }
        r
    }

    /// The request's method: one whitespace-separated token means an
    /// implicit GET, two mean an explicit method and the URL, none or
    /// three and more are errors.
    pub fn method(&self) -> (r: Result<Method, RequestError>)
        ensures
            ({
                let toks = split_ws(self.unresolved_url@);
                match r {
                    Ok(mth) => (toks.len() == 1 && mth == Method::Get) || (toks.len() == 2
                        && method_of_token(toks[0]) == Some(mth)),
                    Err(e) => match e {
                        RequestError::NoUrlGiven => toks.len() == 0,
                        RequestError::UnknownMethod(t) => toks.len() == 2 && t@ == toks[0]
                            && method_of_token(toks[0]) is None,
                        RequestError::MethodNotDeterminable(u) => toks.len() > 2 && u@
                            == self.unresolved_url@,
                        _ => false,
                    },
                }
            }),
    {
        let toks = split_whitespace_vec(self.unresolved_url.as_str());
        if toks.len() == 0 {
            Err(RequestError::NoUrlGiven)
        } else if toks.len() == 1 {
            Ok(Method::Get)
        } else if toks.len() == 2 {
            match token_method(toks[0].as_str()) {
                Some(m) => Ok(m),
                None => Err(RequestError::UnknownMethod(toks[0].clone())),
            }
        } else {
            Err(RequestError::MethodNotDeterminable(self.unresolved_url.clone()))
        }
    }

    /// The request's URL: the URL token of the request line with the
    /// store's variables substituted, accepted only if the outcome parses
    /// as an absolute URL.
    pub fn uri(&self, store: &VariableStorage) -> (r: Result<String, RequestError>)
        requires
            store.wf(),
        ensures
            ({
                let toks = split_ws(self.unresolved_url@);
                let tok = if toks.len() == 1 {
                    toks[0]
                } else {
                    toks[1]
                };
                match r {
                    Ok(u) => toks.len() >= 1 && resolves_to(tok, store@, u@) && url_parse_ok(u@),
                    Err(e) => match e {
                        RequestError::NoUrlGiven => toks.len() == 0,
                        RequestError::InvalidUrl(t) => toks.len() >= 1 && t@ == tok && exists|
                            u: Seq<char>,
                        | resolves_to(tok, store@, u) && !url_parse_ok(u),
                        _ => false,
                    },
                }
            }),
            ({
                let toks = split_ws(self.unresolved_url@);
                let tok = if toks.len() == 1 {
                    toks[0]
                } else {
                    toks[1]
                };
                let st = static_resolve(tok, store@);
                &&& (toks.len() >= 1 && st is Some && url_parse_ok(st->0) ==> (r matches Ok(u) && u@
                    == st->0))
                &&& (toks.len() >= 1 && st is Some && !url_parse_ok(st->0) ==> (r matches Err(
                    RequestError::InvalidUrl(t),
                ) && t@ == tok))
            }),
    {
        let toks = split_whitespace_vec(self.unresolved_url.as_str());
        if toks.len() == 0 {
            return Err(RequestError::NoUrlGiven);
        }
        let tok = if toks.len() == 1 {
            &toks[0]
        } else {
            &toks[1]
        };
        let resolved = tok.as_str().replace_templates(store);
        if is_absolute_url(resolved.as_str()) {
            Ok(resolved)
        } else {
            Err(RequestError::InvalidUrl(tok.clone()))
        }
    }

    /// The request's headers: each raw line split once on its first `:`,
    /// name and value trimmed and substituted, in file order, duplicates
    /// preserved. A line without `:` is a fatal error.
    pub fn headers(&self, store: &VariableStorage) -> (r: Result<
        Vec<(String, String)>,
        RequestError,
    >)
        requires
            store.wf(),
        ensures
            ({
                let raw = self.unresolved_headers.deep_view();
                match r {
                    Ok(v) => v@.len() == raw.len() && forall|j: int|
                        0 <= j < raw.len() ==> ({
                            let pair = #[trigger] colon_split(raw[j]);
                            &&& pair is Some
                            &&& resolves_to(trim_spec((pair->0).0), store@, v@[j].0@)
                            &&& resolves_to(trim_spec((pair->0).1), store@, v@[j].1@)
                            &&& (static_resolve(trim_spec((pair->0).0), store@) matches Some(o)
                                ==> v@[j].0@ == o)
                            &&& (static_resolve(trim_spec((pair->0).1), store@) matches Some(o)
                                ==> v@[j].1@ == o)
                        }),
                    Err(e) => e matches RequestError::MalformedHeader(l) && exists|j: int|
                        0 <= j < raw.len() && colon_split(#[trigger] raw[j]) is None && l@
                            == raw[j] && (forall|k: int|
                            0 <= k < j ==> colon_split(#[trigger] raw[k]) is Some),
                }
            }),
    {
        let mut v: Vec<(String, String)> = Vec::new();
        let n = self.unresolved_headers.len();
        let mut i: usize = 0;
        while i < n
            invariant
                store.wf(),
                n == self.unresolved_headers@.len(),
                0 <= i <= n,
                v@.len() == i,
                forall|j: int|
                    0 <= j < i ==> ({
                        let pair = #[trigger] colon_split(self.unresolved_headers.deep_view()[j]);
                        &&& pair is Some
                        &&& resolves_to(trim_spec((pair->0).0), store@, v@[j].0@)
                        &&& resolves_to(trim_spec((pair->0).1), store@, v@[j].1@)
                        &&& (static_resolve(trim_spec((pair->0).0), store@) matches Some(o) ==> v@[j].0@
                            == o)
                        &&& (static_resolve(trim_spec((pair->0).1), store@) matches Some(o) ==> v@[j].1@
                            == o)
                    }),
            decreases n - i,
        {
            let line = &self.unresolved_headers[i];
            let s = line.as_str();
            match find_colon(s) {
                None => {
                    proof {
                        let raw = self.unresolved_headers.deep_view();
                        assert(raw[i as int] == line@);
                        assert(colon_split(raw[i as int]) is None);
                    }
                    return Err(RequestError::MalformedHeader(line.clone()));
                },
                Some(p) => {
                    let len = s.unicode_len();
                    let raw_name = s.substring_char(0, p);
                    let raw_value = s.substring_char(p + 1, len);
                    let name_trimmed = trim_str(raw_name);
                    let value_trimmed = trim_str(raw_value);
                    let name_res = name_trimmed.as_str().replace_templates(store);
                    let value_res = value_trimmed.as_str().replace_templates(store);
                    proof {
                        let raw = self.unresolved_headers.deep_view()[i as int];
                        assert(raw_name@ =~= (colon_split(raw)->0).0);
                        assert(raw_value@ =~= (colon_split(raw)->0).1);
                    }
                    v.push((name_res, value_res));
                },
            }
            i += 1;
        }
        Ok(v)
    }

    /// The request's body: each raw line substituted, the outcomes joined
    /// with newlines; no lines yield the empty body.
    pub fn body(&self, store: &VariableStorage) -> (r: String)
        requires
            store.wf(),
        ensures
            exists|pieces: Seq<Seq<char>>|
                pieces.len() == self.unresolved_body@.len() && (forall|j: int|
                    0 <= j < pieces.len() ==> resolves_to(
                        self.unresolved_body.deep_view()[j],
                        store@,
                        #[trigger] pieces[j],
                    )) && r@ == join_nl(pieces),
            static_pieces(self.unresolved_body.deep_view(), store@) matches Some(ps) ==> r@
                == join_nl(ps),
    {
        let mut out = String::new();
        let ghost mut pieces: Seq<Seq<char>> = Seq::empty();
        let n = self.unresolved_body.len();
        let mut i: usize = 0;
        while i < n
            invariant
                store.wf(),
                n == self.unresolved_body@.len(),
                0 <= i <= n,
                pieces.len() == i,
                forall|j: int|
                    0 <= j < i ==> resolves_to(
                        self.unresolved_body.deep_view()[j],
                        store@,
                        #[trigger] pieces[j],
                    ),
                out@ == join_nl(pieces),
                (static_pieces(self.unresolved_body.deep_view().take(i as int), store@)
                    matches Some(ps) ==> ps == pieces),
            decreases n - i,
        {
            let line = &self.unresolved_body[i];
            let piece = line.as_str().replace_templates(store);
            if i > 0 {
                out.append("\n");
            }
            out.append(piece.as_str());
            proof {
                reveal_strlit("\n");
                let dv = self.unresolved_body.deep_view();
                let prev = pieces;
                pieces = pieces.push(piece@);
                assert(pieces.drop_last() =~= prev);
                assert(pieces.last() == piece@);
                assert(out@ =~= join_nl(pieces));
                assert(dv.take(i + 1).drop_last() =~= dv.take(i as int));
                assert(dv.take(i + 1).last() == dv[i as int]);
            }
            i += 1;
        }
        proof {
            assert(self.unresolved_body.deep_view().take(n as int)
                =~= self.unresolved_body.deep_view());
        }
        out
    }
}

} // verus!
