//! Starting the service: where the manifest is looked for, which store is
//! opened, and what the commands report.
use vstd::prelude::*;
use crate::paths::{a_parent_is_shorter, below, join_path, parent, parent_path};
use crate::storage::config::{
    credential, filled, EnvSettings, KindView, MemoryStoreConfig, StoreKind,
};
use crate::storage::error::MigrationResult;
use crate::text::{chars_of, decimal, decimal_of};

verus! {

// --- The configuration -------------------------------------------------------

/// The store that the variables select: a service, files, or memory.
pub open spec fn kind_from_env(env: EnvSettings) -> KindView {
    match filled(env.surreal_url) {
        Some(url) => KindView::Service {
            url,
            user: credential(env.surreal_user),
            pass: credential(env.surreal_pass),
        },
        None => match filled(env.embedded_path) {
            Some(path) => KindView::Embedded { path: Some(path) },
            None => KindView::Embedded { path: None },
        },
    }
}

fn is_filled(v: &Option<String>) -> (r: bool)
    ensures
        r == filled(*v) is Some,
{
    match v {
        Some(s) => chars_of(s.as_str()).len() > 0,
        None => false,
    }
}

fn filled_or_root(v: &Option<String>) -> (r: String)
    ensures
        r@ == credential(*v),
{
    match v {
        Some(s) if is_filled(v) => s.clone(),
        _ => "root".to_owned(),
    }
}

/// The store that the variables select: a service, files, or memory.
pub fn default_kind_from_env(env: &EnvSettings) -> (r: StoreKind)
    ensures
        r.deep_view() == kind_from_env(*env),
{
    if let Some(url) = &env.surreal_url {
        if is_filled(&env.surreal_url) {
            return StoreKind::Service {
                url: url.clone(),
                user: filled_or_root(&env.surreal_user),
                pass: filled_or_root(&env.surreal_pass),
            };
        }
    }
    if let Some(path) = &env.embedded_path {
        if is_filled(&env.embedded_path) {
            return StoreKind::Embedded { path: Some(path.clone()) };
        }
    }
    StoreKind::Embedded { path: None }
}

/// The configuration of the service; the migration runner is not strict.
pub fn build_config(
    engram_version: &str,
    namespace: &str,
    database: &str,
    manifest_path: &str,
    env: &EnvSettings,
) -> (r: MemoryStoreConfig)
    ensures
        r.engram_version@ == engram_version@,
        r.namespace@ == namespace@,
        r.database@ == database@,
        r.manifest_path@ == manifest_path@,
        r.kind.deep_view() == kind_from_env(*env),
        !r.strict,
{
    MemoryStoreConfig::new(
        engram_version,
        namespace,
        database,
        manifest_path,
        default_kind_from_env(env),
    )
}

/// The command line and a configuration from the environment select the same
/// store.
pub proof fn both_ways_select_the_same_store(env: EnvSettings)
    ensures
        kind_from_env(env) == env.selected(KindView::Embedded { path: None }),
{
}

// --- The manifest ------------------------------------------------------------

/// The manifest of the repository at `dir`.
pub open spec fn manifest_in(dir: Seq<char>) -> Seq<char> {
    below(below(dir, "schema"@), "manifest.toml"@)
}

/// The places to look for a manifest: in `dir`, then in each directory above it.
pub open spec fn manifest_places(dir: Seq<char>) -> Seq<Seq<char>>
    decreases dir.len(),
{
    match parent(dir) {
        Some(up) => {
            proof {
                a_parent_is_shorter(dir);
            }
            seq![manifest_in(dir)] + manifest_places(up)
        },
        None => seq![manifest_in(dir)],
    }
}

/// The places to look for a manifest: in `dir`, then in each directory above it.
pub fn manifest_candidates(dir: &str) -> (r: Vec<String>)
    ensures
        r.deep_view() == manifest_places(dir@),
{
    let mut out: Vec<String> = Vec::new();
    let mut here = dir.to_owned();
    let ghost all = manifest_places(dir@);
    assert(out.deep_view() + manifest_places(here@) =~= all);
    loop
        invariant_except_break
            out.deep_view() + manifest_places(here@) == all,
        ensures
            out.deep_view() == all,
        decreases here@.len(),
    {
        let ghost before = out.deep_view();
        let ghost now = here@;
        let place = join_path(join_path(here.as_str(), "schema").as_str(), "manifest.toml");
        out.push(place);
        assert(out.deep_view() =~= before.push(manifest_in(now)));
        match parent_path(here.as_str()) {
            Some(up) => {
                proof {
                    a_parent_is_shorter(now);
                    assert(before.push(manifest_in(now)) + manifest_places(up@) =~= before + (seq![
                        manifest_in(now),
                    ] + manifest_places(up@)));
                }
                here = up;
            },
            None => {
                assert(before.push(manifest_in(now)) =~= before + seq![manifest_in(now)]);
                break;
            },
        }
    }
    out
}

/// The first of the places that exists; the manifest below the current directory
/// where none does.
pub open spec fn chosen_manifest(places: Seq<Seq<char>>, present: Seq<bool>) -> Seq<char>
    decreases places.len(),
{
    if places.len() == 0 || present.len() == 0 {
        "schema/manifest.toml"@
    } else if present[0] {
        places[0]
    } else {
        chosen_manifest(places.drop_first(), present.drop_first())
    }
}

/// The first of the places that exists; the manifest below the current directory
/// where none does.
pub fn default_manifest_path(places: &Vec<String>, present: &Vec<bool>) -> (r: String)
    ensures
        r@ == chosen_manifest(places.deep_view(), present@),
{
    let ghost all = places.deep_view();
    let mut i: usize = 0;
    assert(all.skip(0) == all);
    assert(present@.skip(0) == present@);
    while i < places.len() && i < present.len()
        invariant
            i <= places@.len(),
            i <= present@.len(),
            all == places.deep_view(),
            chosen_manifest(all.skip(i as int), present@.skip(i as int)) == chosen_manifest(
                all,
                present@,
            ),
        decreases places@.len() - i,
    {
        assert(all.skip(i as int)[0] == places@[i as int]@);
        assert(present@.skip(i as int)[0] == present@[i as int]);
        if present[i] {
            return places[i].clone();
        }
        assert(all.skip(i as int).drop_first() == all.skip(i + 1));
        assert(present@.skip(i as int).drop_first() == present@.skip(i + 1));
        i = i + 1;
    }
    "schema/manifest.toml".to_owned()
}

/// The nearest manifest wins: one is chosen only where none of the places before
/// it exists.
pub proof fn the_nearest_manifest_wins(places: Seq<Seq<char>>, present: Seq<bool>, i: int)
    requires
        places.len() == present.len(),
        0 <= i < places.len(),
        present[i],
        forall|k: int| 0 <= k < i ==> !#[trigger] present[k],
    ensures
        chosen_manifest(places, present) == places[i],
    decreases i,
{
    if i > 0 {
        assert(!present[0]);
        let rest = present.drop_first();
        assert forall|k: int| 0 <= k < i - 1 implies !#[trigger] rest[k] by {
            assert(rest[k] == present[k + 1]);
        }
        the_nearest_manifest_wins(places.drop_first(), rest, i - 1);
    }
}

// --- Reports -----------------------------------------------------------------

/// What is reported once the service has started.
pub fn started_line(config: &MemoryStoreConfig, version: u32) -> (r: String)
    ensures
        r@ == "engram started: namespace="@ + config.namespace@ + ", database="@ + config.database@
            + ", schema_version="@ + decimal_of(version as nat),
{
    "engram started: namespace=".to_owned().concat(config.namespace.as_str()).concat(
        ", database=",
    ).concat(config.database.as_str()).concat(", schema_version=").concat(
        decimal(version as u128).as_str(),
    )
}

/// What is reported once the migrations have been applied.
pub fn migrated_line(result: &MigrationResult) -> (r: String)
    ensures
        r@ == "migrations complete: applied="@ + decimal_of(result.applied@.len()) + ", skipped="@
            + decimal_of(result.skipped@.len()) + ", version="@ + decimal_of(
            result.current_version as nat,
        ) + ", warnings="@ + decimal_of(result.warnings@.len()),
{
    "migrations complete: applied=".to_owned().concat(
        decimal(result.applied.len() as u128).as_str(),
    ).concat(", skipped=").concat(decimal(result.skipped.len() as u128).as_str()).concat(
        ", version=",
    ).concat(decimal(result.current_version as u128).as_str()).concat(", warnings=").concat(
        decimal(result.warnings.len() as u128).as_str(),
    )
}

/// How a store runs, in words.
pub open spec fn mode_text(kind: KindView) -> Seq<char> {
    match kind {
        KindView::Embedded { path: Some(path) } => "embedded (file: "@ + path + ")"@,
        KindView::Embedded { path: None } => "embedded (in-memory)"@,
        KindView::Service { url, user, pass } => "service ("@ + url + ")"@,
    }
}

/// The lines of a status report.
pub open spec fn status_report(
    namespace: Seq<char>,
    database: Seq<char>,
    version: nat,
    kind: KindView,
) -> Seq<Seq<char>> {
    seq![
        "namespace:  "@ + namespace,
        "database:   "@ + database,
        "schema:     v"@ + decimal_of(version),
        "mode:       "@ + mode_text(kind),
    ]
}

/// How a store runs, in words.
pub fn describe_mode(kind: &StoreKind) -> (r: String)
    ensures
        r@ == mode_text(kind.deep_view()),
{
    match kind {
        StoreKind::Embedded { path } => match path {
            Some(p) => "embedded (file: ".to_owned().concat(p.as_str()).concat(")"),
            None => "embedded (in-memory)".to_owned(),
        },
        StoreKind::Service { url, user, pass } => {
            "service (".to_owned().concat(url.as_str()).concat(")")
        },
    }
}

/// The lines of a status report.
pub fn status_lines(config: &MemoryStoreConfig, version: u32) -> (r: Vec<String>)
    ensures
        r.deep_view() == status_report(
            config.namespace@,
            config.database@,
            version as nat,
            config.kind.deep_view(),
        ),
{
    let lines = vec![
        "namespace:  ".to_owned().concat(config.namespace.as_str()),
        "database:   ".to_owned().concat(config.database.as_str()),
        "schema:     v".to_owned().concat(decimal(version as u128).as_str()),
        "mode:       ".to_owned().concat(describe_mode(config.kind()).as_str()),
    ];
    assert(lines.deep_view() =~= status_report(
        config.namespace@,
        config.database@,
        version as nat,
        config.kind.deep_view(),
    ));
    lines
}

/// The manifest is looked for in `schema/manifest.toml` below the directory, and
/// then below each directory above it.
pub proof fn every_directory_above_is_searched(dir: Seq<char>)
    ensures
        manifest_places(dir).len() > 0,
        manifest_places(dir)[0] == below(below(dir, "schema"@), "manifest.toml"@),
        parent(dir) is Some ==> manifest_places(dir).drop_first() == manifest_places(
            parent(dir)->0,
        ),
        parent(dir) is None ==> manifest_places(dir).len() == 1,
{
    if parent(dir) is Some {
        assert(manifest_places(dir).drop_first() =~= manifest_places(parent(dir)->0));
    }
}

/// Where no place holds a manifest, the one below the current directory is taken.
pub proof fn a_missing_manifest_is_below_the_current_directory(
    places: Seq<Seq<char>>,
    present: Seq<bool>,
)
    requires
        places.len() == present.len(),
        forall|k: int| 0 <= k < present.len() ==> !#[trigger] present[k],
    ensures
        chosen_manifest(places, present) == "schema/manifest.toml"@,
    decreases places.len(),
{
    if places.len() > 0 {
        let rest = present.drop_first();
        assert forall|k: int| 0 <= k < rest.len() implies !#[trigger] rest[k] by {
            assert(rest[k] == present[k + 1]);
        }
        assert(!present[0]);
        a_missing_manifest_is_below_the_current_directory(places.drop_first(), rest);
    }
}

/// What a status report says: the namespace, the database, the version of the
/// schema, and how the store runs.
pub proof fn a_status_report_has_four_lines(
    namespace: Seq<char>,
    database: Seq<char>,
    version: nat,
    kind: KindView,
)
    ensures
        ({
            let lines = status_report(namespace, database, version, kind);
            &&& lines.len() == 4
            &&& lines[0] == "namespace:  "@ + namespace
            &&& lines[1] == "database:   "@ + database
            &&& lines[2] == "schema:     v"@ + decimal_of(version)
            &&& lines[3] == "mode:       "@ + (match kind {
                KindView::Embedded { path } => if path is Some {
                    "embedded (file: "@ + path->0 + ")"@
                } else {
                    "embedded (in-memory)"@
                },
                KindView::Service { url, user, pass } => "service ("@ + url + ")"@,
            })
        }),
{
}

} // verus!
