//! Configuration of the store: which backend to open, and how.
use vstd::prelude::*;
use crate::storage::error::Error;
use crate::storage::manifest::Manifest;
use crate::text::{chars_of, one_of, stands_at, text_of, occurs_at};

verus! {

/// Where the store runs.
#[derive(Debug)]
pub enum StoreKind {
    /// In process: in memory, or in the files under `path`.
    Embedded { path: Option<String> },
    /// A running database service.
    Service { url: String, user: String, pass: String },
}

/// What a [`StoreKind`] holds.
pub enum KindView {
    Embedded { path: Option<Seq<char>> },
    Service { url: Seq<char>, user: Seq<char>, pass: Seq<char> },
}

impl DeepView for StoreKind {
    type V = KindView;

    open spec fn deep_view(&self) -> KindView {
        match self {
            StoreKind::Embedded { path } => KindView::Embedded { path: path.deep_view() },
            StoreKind::Service { url, user, pass } => KindView::Service {
                url: url@,
                user: user@,
                pass: pass@,
            },
        }
    }
}

/// The environment variables that select the store; `None` for one that is not
/// set.
#[derive(Debug)]
pub struct EnvSettings {
    /// `ENGRAM_SURREAL_URL`.
    pub surreal_url: Option<String>,
    /// `ENGRAM_SURREAL_USER`.
    pub surreal_user: Option<String>,
    /// `ENGRAM_SURREAL_PASS`.
    pub surreal_pass: Option<String>,
    /// `ENGRAM_EMBEDDED_PATH`.
    pub embedded_path: Option<String>,
    /// `ENGRAM_MIGRATION_STRICT`.
    pub migration_strict: Option<String>,
}

/// The text of a variable, where it is set and not empty.
pub open spec fn filled(v: Option<String>) -> Option<Seq<char>> {
    match v {
        Some(s) if s@.len() > 0 => Some(s@),
        _ => None,
    }
}

/// The text of a credential; `root` where none is given.
pub open spec fn credential(v: Option<String>) -> Seq<char> {
    match filled(v) {
        Some(s) => s,
        None => "root"@,
    }
}

impl EnvSettings {
    /// The service that the variables name, if any.
    pub open spec fn service(self) -> Option<KindView> {
        match filled(self.surreal_url) {
            Some(url) => Some(
                KindView::Service {
                    url,
                    user: credential(self.surreal_user),
                    pass: credential(self.surreal_pass),
                },
            ),
            None => None,
        }
    }

    /// The store that the variables select over `current`. A service wins over
    /// an embedded path, whether the variables name it or `current` is one.
    pub open spec fn selected(self, current: KindView) -> KindView {
        let chosen = match self.service() {
            Some(service) => service,
            None => current,
        };
        match filled(self.embedded_path) {
            Some(path) if !(chosen is Service) => KindView::Embedded { path: Some(path) },
            _ => chosen,
        }
    }

    /// Both a service and an embedded path are given, so that the path is
    /// ignored.
    pub open spec fn conflicting(self) -> bool {
        filled(self.surreal_url) is Some && filled(self.embedded_path) is Some
    }

    /// Whether both a service and an embedded path are given, so that the path
    /// is ignored.
    pub fn has_conflict(&self) -> (r: bool)
        ensures
            r == self.conflicting(),
    {
        non_empty(&self.surreal_url).is_some() && non_empty(&self.embedded_path).is_some()
    }
}

fn non_empty(v: &Option<String>) -> (r: Option<String>)
    ensures
        r.deep_view() == filled(*v),
{
    match v {
        Some(s) => {
            if chars_of(s.as_str()).len() > 0 {
                Some(s.clone())
            } else {
                None
            }
        },
        None => None,
    }
}

fn credential_of(v: &Option<String>) -> (r: String)
    ensures
        r@ == credential(*v),
{
    match non_empty(v) {
        Some(s) => s,
        None => "root".to_owned(),
    }
}

/// The strict flag of the variables, where one is set.
pub open spec fn strict_flag(v: Option<String>) -> Option<bool> {
    match v {
        Some(s) => Some(s@ == "1"@ || s@ == "true"@ || s@ == "yes"@),
        None => None,
    }
}

/// The release that a configuration from a manifest is stamped with.
pub open spec fn own_release() -> Seq<char> {
    "0.1.0"@
}

/// Configuration for opening the store.
#[derive(Debug)]
pub struct MemoryStoreConfig {
    /// The release that the migration runner records.
    pub engram_version: String,
    /// The namespace to use.
    pub namespace: String,
    /// The database in the namespace.
    pub database: String,
    /// The path of the schema manifest.
    pub manifest_path: String,
    /// Where the store runs.
    pub kind: StoreKind,
    /// Whether the migration runner refuses destructive migrations.
    pub strict: bool,
}

impl MemoryStoreConfig {
    /// A configuration with its fields given; the runner is not strict.
    pub fn new(
        engram_version: &str,
        namespace: &str,
        database: &str,
        manifest_path: &str,
        kind: StoreKind,
    ) -> (r: Self)
        ensures
            r.engram_version@ == engram_version@,
            r.namespace@ == namespace@,
            r.database@ == database@,
            r.manifest_path@ == manifest_path@,
            r.kind == kind,
            !r.strict,
    {
        MemoryStoreConfig {
            engram_version: engram_version.to_owned(),
            namespace: namespace.to_owned(),
            database: database.to_owned(),
            manifest_path: manifest_path.to_owned(),
            kind,
            strict: false,
        }
    }

    /// A configuration from the environment: in memory, unless the variables
    /// select a service or a path.
    pub fn from_env(
        engram_version: &str,
        namespace: &str,
        database: &str,
        manifest_path: &str,
        env: &EnvSettings,
    ) -> (r: Self)
        ensures
            r.engram_version@ == engram_version@,
            r.namespace@ == namespace@,
            r.database@ == database@,
            r.manifest_path@ == manifest_path@,
            r.kind.deep_view() == env.selected(KindView::Embedded { path: None }),
            r.strict == (strict_flag(env.migration_strict) == Some(true)),
    {
        let mut config = MemoryStoreConfig::new(
            engram_version,
            namespace,
            database,
            manifest_path,
            StoreKind::Embedded { path: None },
        );
        config.apply_env_overrides(env);
        config
    }

    /// Switches the backend and the strict flag to what the variables say.
    pub fn apply_env_overrides(&mut self, env: &EnvSettings)
        ensures
            final(self).engram_version == old(self).engram_version,
            final(self).namespace == old(self).namespace,
            final(self).database == old(self).database,
            final(self).manifest_path == old(self).manifest_path,
            final(self).kind.deep_view() == env.selected(old(self).kind.deep_view()),
            final(self).strict == match strict_flag(env.migration_strict) {
                Some(flag) => flag,
                None => old(self).strict,
            },
    {
        if let Some(url) = non_empty(&env.surreal_url) {
            self.kind = StoreKind::Service {
                url,
                user: credential_of(&env.surreal_user),
                pass: credential_of(&env.surreal_pass),
            };
        }
        let ghost chosen = self.kind.deep_view();
        if let Some(path) = non_empty(&env.embedded_path) {
            let in_process = match &self.kind {
                StoreKind::Embedded { path } => true,
                StoreKind::Service { url, user, pass } => false,
            };
            assert(in_process == !(chosen is Service));
            if in_process {
                self.kind = StoreKind::Embedded { path: Some(path) };
            }
        }
        if let Some(strict) = &env.migration_strict {
            let accepted = ["1", "true", "yes"];
            let flag = one_of(strict.as_str(), &accepted);
            proof {
                assert(accepted@[0]@ == "1"@ && accepted@[1]@ == "true"@ && accepted@[2]@ == "yes"@);
                assert(flag == (strict@ == "1"@ || strict@ == "true"@ || strict@ == "yes"@));
            }
            self.strict = flag;
        }
    }

    /// A configuration for a manifest that was read; where reading it failed,
    /// so does this.
    pub fn from_manifest(
        read: Result<Manifest, Error>,
        manifest_path: &str,
        namespace: &str,
        database: &str,
        env: &EnvSettings,
    ) -> (r: Result<Self, Error>)
        ensures
            match r {
                Ok(config) => {
                    &&& read is Ok
                    &&& config.engram_version@ == own_release()
                    &&& config.namespace@ == namespace@
                    &&& config.database@ == database@
                    &&& config.manifest_path@ == manifest_path@
                    &&& config.kind.deep_view() == env.selected(KindView::Embedded { path: None })
                    &&& config.strict == (strict_flag(env.migration_strict) == Some(true))
                },
                Err(e) => read == Err::<Manifest, Error>(e),
            },
    {
        match read {
            Ok(_) => Ok(
                MemoryStoreConfig::from_env("0.1.0", namespace, database, manifest_path, env),
            ),
            Err(e) => Err(e),
        }
    }

    /// Where the store runs.
    pub fn kind(&self) -> (r: &StoreKind)
        ensures
            *r == self.kind,
    {
        &self.kind
    }
}

/// A configuration for the manifest of a repository.
pub fn config_from_repo_layout(
    read: Result<Manifest, Error>,
    manifest_path: &str,
    ns: &str,
    db: &str,
    env: &EnvSettings,
) -> (r: Result<MemoryStoreConfig, Error>)
    ensures
        match r {
            Ok(config) => {
                &&& read is Ok
                &&& config.engram_version@ == own_release()
                &&& config.namespace@ == ns@
                &&& config.database@ == db@
                &&& config.manifest_path@ == manifest_path@
                &&& config.kind.deep_view() == env.selected(KindView::Embedded { path: None })
                &&& config.strict == (strict_flag(env.migration_strict) == Some(true))
            },
            Err(e) => read == Err::<Manifest, Error>(e),
        },
{
    MemoryStoreConfig::from_manifest(read, manifest_path, ns, db, env)
}

/// Where both a service and an embedded path are given, the service wins.
pub proof fn the_service_wins(env: EnvSettings, current: KindView)
    requires
        env.conflicting(),
    ensures
        Some(env.selected(current)) == env.service(),
{
}

/// Without any of the variables the backend stays what it was.
pub proof fn no_variable_changes_nothing(env: EnvSettings, current: KindView)
    requires
        filled(env.surreal_url) is None,
        filled(env.embedded_path) is None,
    ensures
        env.selected(current) == current,
{
}

// --- Service endpoints -------------------------------------------------------

/// `s` without any number of leading `prefix`.
pub open spec fn without_prefixes(s: Seq<char>, prefix: Seq<char>) -> Seq<char>
    decreases s.len(),
{
    if prefix.len() > 0 && occurs_at(s, prefix, 0) {
        without_prefixes(s.skip(prefix.len() as int), prefix)
    } else {
        s
    }
}

/// The host and port of a service URL: the schemes in front are dropped.
pub open spec fn endpoint_spec(url: Seq<char>) -> Seq<char> {
    without_prefixes(without_prefixes(url, "http://"@), "https://"@)
}

fn skip_prefixes(chars: &Vec<char>, from: usize, prefix: &Vec<char>) -> (r: usize)
    requires
        from <= chars@.len(),
        prefix@.len() > 0,
    ensures
        from <= r <= chars@.len(),
        chars@.skip(r as int) == without_prefixes(chars@.skip(from as int), prefix@),
{
    let n: usize = chars.len();
    let mut at: usize = from;
    while stands_at(chars, prefix, at)
        invariant
            from <= at <= n == chars@.len(),
            prefix@.len() > 0,
            without_prefixes(chars@.skip(at as int), prefix@) == without_prefixes(
                chars@.skip(from as int),
                prefix@,
            ),
        decreases n - at,
    {
        let ghost rest = chars@.skip(at as int);
        let step: usize = prefix.len();
        assert(rest.subrange(0, prefix@.len() as int) == chars@.subrange(
            at as int,
            at + prefix@.len(),
        ));
        assert(rest.skip(prefix@.len() as int) == chars@.skip(at + prefix@.len()));
        at = at + step;
    }
    proof {
        let rest = chars@.skip(at as int);
        if occurs_at(rest, prefix@, 0) {
            assert(rest.subrange(0, prefix@.len() as int) == chars@.subrange(
                at as int,
                at + prefix@.len(),
            ));
        }
    }
    at
}

/// The host and port of a service URL: the schemes in front are dropped.
pub fn endpoint(url: &str) -> (r: String)
    ensures
        r@ == endpoint_spec(url@),
{
    let chars = chars_of(url);
    proof {
        reveal_strlit("http://");
        reveal_strlit("https://");
    }
    assert(chars@.skip(0) == url@);
    let at = skip_prefixes(&chars, 0, &chars_of("http://"));
    let at = skip_prefixes(&chars, at, &chars_of("https://"));
    let n: usize = chars.len();
    assert(chars@.skip(at as int) == chars@.subrange(at as int, n as int));
    text_of(&chars, at, n)
}

/// What the variables select: a service where its address is given, with the
/// credentials that are given, else `root`; else, unless a service is selected
/// already, the files at an embedded path where one is given; else what was
/// selected before. An empty variable counts as none.
pub proof fn the_variables_select_a_store(env: EnvSettings, current: KindView)
    ensures
        ({
            let given = |v: Option<String>| v is Some && v->0@.len() > 0;
            let or_root = |v: Option<String>|
                if given(v) {
                    v->0@
                } else {
                    "root"@
                };
            let r = env.selected(current);
            &&& given(env.surreal_url) ==> r == (KindView::Service {
                url: env.surreal_url->0@,
                user: or_root(env.surreal_user),
                pass: or_root(env.surreal_pass),
            })
            &&& !given(env.surreal_url) && given(env.embedded_path) && !(current is Service) ==> r
                == (KindView::Embedded { path: Some(env.embedded_path->0@) })
            &&& !given(env.surreal_url) && (current is Service || !given(env.embedded_path)) ==> r
                == current
            &&& env.conflicting() <==> given(env.surreal_url) && given(env.embedded_path)
        }),
{
}

/// The migration runner is strict exactly where its variable says `1`, `true` or
/// `yes`; where the variable is not set, nothing is said.
pub proof fn these_words_ask_for_strictness(v: Option<String>)
    ensures
        strict_flag(v) == Some(true) <==> v is Some && (v->0@ == "1"@ || v->0@ == "true"@ || v->0@
            == "yes"@),
        strict_flag(v) is None <==> v is None,
{
}

/// An endpoint is an address without the schemes in front of it, however often
/// they stand there; an address without a scheme is its own endpoint.
pub proof fn an_endpoint_has_no_scheme(url: Seq<char>)
    ensures
        !occurs_at(endpoint_spec(url), "https://"@, 0),
        !occurs_at(url, "http://"@, 0) && !occurs_at(url, "https://"@, 0) ==> endpoint_spec(url)
            == url,
        endpoint_spec("http://"@ + url) == endpoint_spec(url),
        !occurs_at(url, "http://"@, 0) ==> endpoint_spec("https://"@ + url) == endpoint_spec(url),
        exists|n: int| 0 <= n <= url.len() && endpoint_spec(url) == #[trigger] url.skip(n),
{
    let http = "http://"@;
    let https = "https://"@;
    reveal_strlit("http://");
    reveal_strlit("https://");
    let bare = without_prefixes(url, http);
    lemma_no_prefix(bare, https);
    lemma_no_prefix(url, http);
    let a = lemma_prefixes_are_cut(url, http);
    let b = lemma_prefixes_are_cut(bare, https);
    assert(url.skip(a).skip(b) =~= url.skip(a + b));
    // One more scheme in front changes nothing.
    let longer = http + url;
    assert(longer.subrange(0, http.len() as int) =~= http);
    assert(occurs_at(longer, http, 0));
    assert(longer.skip(http.len() as int) =~= url);
    let secure = https + url;
    assert(secure.subrange(0, https.len() as int) =~= https);
    assert(occurs_at(secure, https, 0));
    assert(secure.skip(https.len() as int) =~= url);
    assert(!occurs_at(secure, http, 0)) by {
        if occurs_at(secure, http, 0) {
            assert(secure.subrange(0, http.len() as int)[4] == secure[4]);
            assert(secure[4] == 's');
        }
    }
    assert(without_prefixes(secure, http) == secure);
}

proof fn lemma_no_prefix(s: Seq<char>, prefix: Seq<char>)
    requires
        prefix.len() > 0,
    ensures
        !occurs_at(without_prefixes(s, prefix), prefix, 0),
    decreases s.len(),
{
    if occurs_at(s, prefix, 0) {
        lemma_no_prefix(s.skip(prefix.len() as int), prefix);
    }
}

proof fn lemma_prefixes_are_cut(s: Seq<char>, prefix: Seq<char>) -> (n: int)
    requires
        prefix.len() > 0,
    ensures
        0 <= n <= s.len(),
        without_prefixes(s, prefix) == s.skip(n),
    decreases s.len(),
{
    if occurs_at(s, prefix, 0) {
        let rest = s.skip(prefix.len() as int);
        let n = lemma_prefixes_are_cut(rest, prefix);
        assert(rest.skip(n) =~= s.skip(prefix.len() + n));
        prefix.len() + n
    } else {
        assert(s.skip(0) =~= s);
        0
    }
}

} // verus!
